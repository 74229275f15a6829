//! What holds of every step of the scheduler, whatever the graph, the event
//! and the ids.

pub mod calls;
pub mod dispatching;
pub mod driving;
pub mod ending;
pub mod handling;
pub mod integrating;
pub mod limits;
pub mod naming;
pub mod places;
pub mod plain;
pub mod record;
pub mod recovering;
pub mod references;
pub mod renaming;
pub mod replaying;
pub mod results;
pub mod running;
pub mod tasks;
pub mod telling;
pub mod ticks;
pub mod triggering;
pub mod values;
pub mod wording;
