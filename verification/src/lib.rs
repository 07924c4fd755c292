//! Phone-as-webcam host: the decisions, parsers and pixel work of the program,
//! stated over mathematical models and proved.

pub mod bytes;
pub mod cert;
pub mod decode;
pub mod depay;
pub mod encoder;
pub mod figures;
pub mod float;
pub mod health;
pub mod host;
pub mod icon;
pub mod ipc;
pub mod mp4;
pub mod nv12;
pub mod overlay;
pub mod pairing;
pub mod panel;
pub mod player;
pub mod preview;
pub mod qr;
pub mod record;
pub mod sender;
pub mod server;
pub mod session;
pub mod settings;
pub mod shared;
pub mod single;
pub mod sps;
pub mod sys;
pub mod text;
pub mod ui;
pub mod vcam;
