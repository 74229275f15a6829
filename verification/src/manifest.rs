//! Rows of the task manifest.

use vstd::prelude::*;

use crate::text;
use crate::text::{copy_texts, Text};

verus! {

/// One named value that a planner attached to a task.
#[derive(Debug, PartialEq)]
pub struct TaskField {
    /// The value's name.
    pub key: String,
    /// The value.
    pub value: String,
}

/// The mathematical value of a [`TaskField`].
pub struct TaskFieldView {
    pub key: Text,
    pub value: Text,
}

impl View for TaskField {
    type V = TaskFieldView;

    open spec fn view(&self) -> TaskFieldView {
        TaskFieldView { key: self.key@, value: self.value@ }
    }
}

impl Clone for TaskField {
    fn clone(&self) -> (copy: Self)
        ensures
            copy@ == self@,
    {
        TaskField { key: self.key.clone(), value: self.value.clone() }
    }
}

/// The values of a list of fields.
pub open spec fn field_views(fields: Seq<TaskField>) -> Seq<TaskFieldView> {
    fields.map_values(|f: TaskField| f@)
}

/// The value of the first field of that name, if there is one.
pub open spec fn field_value(fields: Seq<TaskFieldView>, key: Text) -> Option<Text>
    decreases fields.len(),
{
    if fields.len() == 0 {
        None
    } else if fields[0].key == key {
        Some(fields[0].value)
    } else {
        field_value(fields.drop_first(), key)
    }
}

/// The first field named `key`.
pub fn find_field<'a>(fields: &'a Vec<TaskField>, key: &String) -> (value: Option<&'a String>)
    ensures
        match value {
            Some(v) => field_value(field_views(fields@), key@) == Some(v@),
            None => field_value(field_views(fields@), key@) is None,
        },
{
    let mut i: usize = 0;
    assert(field_views(fields@).skip(0) =~= field_views(fields@));
    while i < fields.len()
        invariant
            i <= fields.len(),
            field_value(field_views(fields@), key@) == field_value(
                field_views(fields@).skip(i as int),
                key@,
            ),
        decreases fields.len() - i,
    {
        let ghost rest = field_views(fields@).skip(i as int);
        assert(rest[0] == fields@[i as int]@);
        if fields[i].key == *key {
            return Some(&fields[i].value);
        }
        assert(rest.drop_first() =~= field_views(fields@).skip(i + 1));
        i += 1;
    }
    None
}

/// A completed task, as the manifest records it.
#[derive(Debug, PartialEq)]
pub struct TaskRecord {
    /// The task's id; rows of different teams for one task share it.
    pub id: String,
    /// What the task was.
    pub objective: String,
    /// The commit that completed it; empty for planner rows.
    pub commit: String,
    /// When it was recorded.
    pub completed_at: String,
    /// The team that completed it.
    pub team: Option<String>,
    /// Values the planner attached.
    pub task_kv: Vec<TaskField>,
    /// Tasks that have to be completed first.
    pub depends_on: Vec<String>,
}

/// The mathematical value of a [`TaskRecord`].
pub struct TaskRecordView {
    pub id: Text,
    pub objective: Text,
    pub commit: Text,
    pub completed_at: Text,
    pub team: Option<Text>,
    pub task_kv: Seq<TaskFieldView>,
    pub depends_on: Seq<Text>,
}

impl View for TaskRecord {
    type V = TaskRecordView;

    open spec fn view(&self) -> TaskRecordView {
        TaskRecordView {
            id: self.id@,
            objective: self.objective@,
            commit: self.commit@,
            completed_at: self.completed_at@,
            team: text::opt_text(self.team),
            task_kv: field_views(self.task_kv@),
            depends_on: text::texts(self.depends_on@),
        }
    }
}

impl Clone for TaskRecord {
    fn clone(&self) -> (copy: Self)
        ensures
            copy@ == self@,
    {
        let copy = TaskRecord {
            id: self.id.clone(),
            objective: self.objective.clone(),
            commit: self.commit.clone(),
            completed_at: self.completed_at.clone(),
            team: text::copy_opt_text(&self.team),
            task_kv: self.task_kv.clone(),
            depends_on: copy_texts(&self.depends_on),
        };
        assert(copy@.task_kv =~= self@.task_kv);
        copy
    }
}

/// The values of a list of manifest rows.
pub open spec fn record_views(records: Seq<TaskRecord>) -> Seq<TaskRecordView> {
    records.map_values(|r: TaskRecord| r@)
}

} // verus!
