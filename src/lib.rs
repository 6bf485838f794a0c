//! Framing of commands and image transfers for Stream Deck devices: the
//! reports that set brightness, the reports that carry a key image, and the
//! decoding of what the device sends back.

pub mod command;
pub mod fade;
pub mod firmware;
pub mod image;
pub mod input;

pub use command::{brightness_report, frame_command, CommandArg, Error};
pub use fade::{fade_action, plan_fade, FadeAction, FadePlan};
pub use firmware::{
    decode_firmware_version, Firmware, FirmwareKind, FirmwareMini, FirmwareV1, FirmwareV2,
};
pub use image::{bmp_header, create_image_header, image_packets, key_image_packets, to_device_native};
pub use input::{decode_key_event, KeyEvent};
