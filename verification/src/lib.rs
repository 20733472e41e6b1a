pub mod client;
pub mod connect;
pub mod reader;

pub use crate::client::{ClientError, CloseStep, SendPlan, WebSocketClient};
pub use crate::connect::{connect_status, should_disconnect, ws_url, wss_url, ConnectError};
pub use crate::reader::WebSocketReader;
