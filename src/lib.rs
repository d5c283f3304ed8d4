//! Scheduling and eligibility rules of a sports club: who may join a category, whether a
//! court is free for a window, and how trainings and tournaments are created, moved and
//! removed together with their court reservations, undoing a step when a later one fails.

pub mod interval;
pub mod level;
pub mod user;
pub mod category;
pub mod court;
pub mod event;
pub mod tournament;
pub mod tuition;
pub mod training;
pub mod request;
pub mod club;
pub mod clock;
pub mod migration;
