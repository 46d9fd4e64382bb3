pub mod custom_image;
pub mod mudae;
