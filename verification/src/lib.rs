pub mod convolve;
pub mod imageio;
pub mod matrix;
