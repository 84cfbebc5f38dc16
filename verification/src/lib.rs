pub mod data;
pub mod fcfb;
pub mod fftutil;
pub mod framer;
pub mod inputformats;
pub mod params;
pub mod spectrum;
pub mod wire;
