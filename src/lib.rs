//! Control of a USB HID barcode scanner: the device catalog, device
//! selection, command frames and response reassembly. The transport itself
//! (enumerating, opening, reading and writing devices) is left to the caller,
//! which hands this library the values it read and sends the frames it builds.

pub mod catalog;
pub mod command;
pub mod error;
pub mod label;
pub mod response;
pub mod selector;
pub mod text;

pub use catalog::{DeviceDescriptor, DeviceIdentity, RawDevice, enumerate_usb_devices};
pub use command::{beep_command, firmware_info_command, text_command, trigger_on_command};
pub use error::ScannerError;
pub use label::{device_line, pid_vid_to_hexstr};
pub use response::{ReadStep, ResponseReader, chunk_payload, decode_response};
pub use selector::{
    Selection, find_mask_in_available_devices, is_mask_given, is_pid_and_vid_given,
    resolve_device, select_usb_device,
};

