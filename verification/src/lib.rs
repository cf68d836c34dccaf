//! Verified readers and an anomaly auditor for external-device (peripheral)
//! connection evidence: Windows `setupapi` logs, Linux kernel logs, registry
//! hives, and `usb.ids` tables.

pub mod text;
pub mod numbers;
pub mod device;
pub mod setupapi;
pub mod linux_syslog;
pub mod usb_ids;
pub mod analyzer;
pub mod cells;
pub mod hive;
pub mod emdmgmt;
pub mod volume_info;
pub mod mountpoints2;
pub mod mounted_volumes;
pub mod registry;
pub mod shellbag;
