pub mod camera;
pub mod decoders;
