//! Reference-based video quality metrics: the integer kernels, frame model and
//! decision logic behind PSNR, APSNR, PSNR-HVS, SSIM, MS-SSIM and CIEDE2000.

pub mod error;
pub mod dct;
pub mod pixel;
pub mod frame;
pub mod psnr;
pub mod decode;
pub mod ssim;
pub mod driver;
pub mod video;
pub mod metric_state;
pub mod psnr_hvs;
pub mod ciede;
