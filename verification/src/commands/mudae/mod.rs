pub mod image_create;
pub mod image_delete;
pub mod roll_channel;
