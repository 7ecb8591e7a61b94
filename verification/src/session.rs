//! The session's wire-level pieces: the exact command strings sent to the
//! PBX, the test that a login reply accepts the credentials, and the
//! assembly of newline-delimited input into whole blocks. The caller owns
//! the socket; everything here is plain text in and plain text out.

use vstd::prelude::*;
use vstd::string::StringExecFns;
use vstd::string::StringSliceAdditionalSpecFns;
use crate::text::{contains_seq, spec_trim, str_contains, trim_exec};

verus! {

/// The credentials and endpoint of one session: an IPv4 host as four
/// octets, the port, and the account. Immutable for the session's lifetime.
pub struct AmiConnect {
    pub user: String,
    pub pass: String,
    pub address: [u8; 4],
    pub port: u16,
}

impl AmiConnect {
    /// Package the credentials of one session.
    pub fn new(user: String, pass: String, address: [u8; 4], port: u16) -> (c: AmiConnect)
        ensures
            c.user@ == user@,
            c.pass@ == pass@,
            c.address@ == address@,
            c.port == port,
    {
        AmiConnect { user, pass, address, port }
    }

    /// The login command for these credentials.
    pub fn login_command(&self) -> (s: String)
        ensures
            s@ == "Action: Login\r\nUsername: "@ + self.user@ + "\r\nSecret: "@ + self.pass@
                + "\r\nActionID: 1\r\n\r\n"@,
    {
        login_command(self.user.as_str(), self.pass.as_str())
    }
}

/// The login command: action, username, secret and a fixed action id, each
/// line ended by a carriage return and newline, the block by a blank line.
pub fn login_command(user: &str, secret: &str) -> (s: String)
    ensures
        s@ == "Action: Login\r\nUsername: "@ + user@ + "\r\nSecret: "@ + secret@
            + "\r\nActionID: 1\r\n\r\n"@,
{
    let mut s = String::from_str("Action: Login\r\nUsername: ");
    s.append(user);
    s.append("\r\nSecret: ");
    s.append(secret);
    s.append("\r\nActionID: 1\r\n\r\n");
    s
}

/// The command that asks for the list of AORs.
pub fn show_aors_command() -> (s: String)
    ensures
        s@ == "Action: PJSIPShowAors\r\n\r\n"@,
{
    String::from_str("Action: PJSIPShowAors\r\n\r\n")
}

/// The command that asks for the list of contacts.
pub fn show_contacts_command() -> (s: String)
    ensures
        s@ == "Action: PJSIPShowContacts\r\n\r\n"@,
{
    String::from_str("Action: PJSIPShowContacts\r\n\r\n")
}

/// The command that queries one extension's state in a context.
pub fn extension_state_command(sip: &str, ctx: &str) -> (s: String)
    ensures
        s@ == "Action: ExtensionState\nExten: "@ + sip@ + "\nContext: "@ + ctx@ + "\n\n"@,
{
    let mut s = String::from_str("Action: ExtensionState\nExten: ");
    s.append(sip);
    s.append("\nContext: ");
    s.append(ctx);
    s.append("\n\n");
    s
}

/// Whether a login reply accepts the credentials: it carries the literal
/// acceptance marker. When it does not, the session must be refused and the
/// socket closed; no reader is started.
pub fn login_accepted(block: &str) -> (b: bool)
    ensures
        b == contains_seq(block@, "Message: Authentication accepted"@),
{
    str_contains(block, "Message: Authentication accepted")
}

/// Reassembles newline-delimited input into whole blocks: lines are pushed
/// as they are read, and a line of at most two bytes — a blank separator
/// line and its terminator — ends the block.
pub struct BlockAssembler {
    buf: String,
}

impl View for BlockAssembler {
    type V = Seq<char>;

    closed spec fn view(&self) -> Seq<char> {
        self.buf@
    }
}

impl BlockAssembler {
    /// An assembler holding nothing yet.
    pub fn new() -> (a: BlockAssembler)
        ensures
            a@ == Seq::<char>::empty(),
    {
        BlockAssembler { buf: String::new() }
    }

    /// Take one line, terminator included, as it came off the stream. The
    /// result says whether this line ends the block: it held at most two
    /// bytes, a blank separator line.
    pub fn push_line(&mut self, line: &str) -> (done: bool)
        ensures
            final(self)@ == old(self)@ + line@,
            done == (line.spec_bytes().len() <= 2),
    {
        self.buf.append(line);
        let bytes = line.as_bytes();
        bytes.len() <= 2
    }

    /// The assembled block, trimmed of surrounding whitespace. An empty
    /// result — a block that was only its terminating blank line — signals a
    /// possible disconnect to the caller.
    pub fn finish(self) -> (s: String)
        ensures
            s@ == spec_trim(self@),
    {
        trim_exec(self.buf.as_str())
    }
}

} // verus!
