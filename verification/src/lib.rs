//! Installing U-Boot recovery on AN758x routers from the stock system.
//!
//! The library holds what the installer decides and computes: reading boot
//! packages, building the bootstrap UBI image, choosing where it is written,
//! carrying out verified eraseblock writes step by step, and what the page and the
//! browser are shown. What is read from and written to the device is handed in and
//! out as plain values.
pub mod backup;
pub mod bytes;
pub mod cli;
pub mod display;
pub mod fip;
pub mod fip_laws;
pub mod image_laws;
pub mod install;
pub mod install_laws;
pub mod mtd;
pub mod mtd_laws;
pub mod number;
pub mod page;
pub mod reply;
pub mod search;
pub mod search_laws;
pub mod text;
pub mod text_laws;
pub mod transfer;
pub mod ubi;
pub mod ubi_laws;
pub mod unlock;
pub mod upload;
