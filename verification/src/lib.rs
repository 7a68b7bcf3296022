//! PhoneCam: the wire protocol, stream negotiation and frame handling of a
//! phone-as-webcam system, with the decisions of its transport, discovery,
//! mobile core and desktop receiver.
pub mod protocol;
pub mod messages;
pub mod framing;
pub mod arith;
pub mod decode;
pub mod convert;
pub mod text;
pub mod output;
pub mod pipeline;
pub mod session;
pub mod desktop;
pub mod keyed;
pub mod adb;
pub mod adb_select;
pub mod adb_monitor;
pub mod adb_search;
pub mod decode_state;
pub mod transport;
pub mod discovery;
pub mod address;
pub mod mobile;
pub mod driver;
pub mod native_driver;
