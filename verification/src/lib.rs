pub mod text;
pub mod ci;
pub mod dap;
pub mod hibat;
pub mod r01;
pub mod raider;
