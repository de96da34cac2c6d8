//! Domain values: paths, sizes, devices and image candidates.

pub mod device;
pub mod iso;
pub mod paths;
pub mod units;
pub mod writer;

pub use device::Device;
pub use iso::IsoMeta;
pub use paths::{DevicePath, DirPath, IsoPath};
pub use units::ByteSize;
