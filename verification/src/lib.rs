pub mod interface;
pub mod protocol;
pub mod server;
pub mod mac;
pub mod sample_rate;
pub mod scan;
pub mod usb;
pub mod flash;
pub mod channels;
pub mod client;
pub mod ep0;
pub mod capture;
