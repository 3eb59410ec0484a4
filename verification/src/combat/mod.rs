pub mod health;
pub use health::Health;
pub mod aiming;
