//! The heartbeat that keeps a Wago controller sending to this server: the
//! messages it is made of. Sending them on a UDP socket, every period, is
//! the application's job.

use vstd::prelude::*;

use crate::text::append_str;

verus! {

/// The message that asks a Wago controller for its information.
pub fn info_request() -> (r: &'static str)
    ensures
        r@ == "WAGO_GET_INFO"@,
{
    "WAGO_GET_INFO"
}

/// The heartbeat message.
pub fn heartbeat_message() -> (r: &'static str)
    ensures
        r@ == "WAGO_HEARTBEAT"@,
{
    "WAGO_HEARTBEAT"
}

/// The command that tells a Wago controller the server's IP address, given
/// in its text form.
pub fn set_server_ip_command(ip: &str) -> (r: String)
    ensures
        r@ == "WAGO_SET_SERVER_IP "@ + ip@,
{
    let mut r = String::new();
    append_str(&mut r, "WAGO_SET_SERVER_IP ");
    append_str(&mut r, ip);
    r
}

/// The information text in a reply of `len` bytes: the reply without its
/// last byte, its terminator.
pub fn info_text(reply: &[u8], len: usize) -> (r: &[u8])
    requires
        1 <= len <= reply@.len(),
    ensures
        r@ == reply@.subrange(0, len - 1),
{
    vstd::slice::slice_subrange(reply, 0, len - 1)
}

} // verus!
