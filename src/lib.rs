pub mod cell;
pub mod effect;
pub mod events;
pub mod mixins;
pub mod names;
pub mod route;
pub mod router;
