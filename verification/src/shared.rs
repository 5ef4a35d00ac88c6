pub mod helpers;
pub mod hexcodec;
pub mod stores;
pub mod text;
