pub mod control_header;
pub mod fake_tc6_device;
pub mod frame_laws;
pub mod receive_footer;
pub mod transmit_header;
pub mod utils;
