pub mod death;
