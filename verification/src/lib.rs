pub mod codec;
pub mod db;
pub mod device;
pub mod mac;
pub mod repository;
pub mod wol;
