pub mod fade;
pub mod particle;
pub mod sprite_sheet;
