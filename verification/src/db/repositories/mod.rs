pub mod image_repo;
