//! Mail proxies (IMAP, POP3, SMTP): addresses, and the replies that the POP3
//! and SMTP stubs give to each command. Sockets stay with the caller.

use vstd::prelude::*;
use vstd::string::StringExecFns;
use crate::text::{has_prefix, starts_with};

verus! {

#[derive(PartialEq, Eq, Structural, Clone, Copy, Debug)]
pub enum MailProtocol {
    IMAP,
    POP3,
    SMTP,
}

pub struct MailProxy {}

impl MailProxy {
    pub fn new() -> (r: Self) {
        MailProxy {}
    }
}

pub struct ImapProxy {
    pub addr: String,
}

impl ImapProxy {
    pub fn new(addr: String) -> (r: Self)
        ensures
            r.addr == addr,
    {
        ImapProxy { addr }
    }

    /// The reply to a command, given the command in upper case and its
    /// first word (its tag), if any.
    pub fn reply_for(upper: &str, tag: Option<&str>) -> (r: (String, bool))
        ensures
            (r.0@, r.1) == imap_reply_spec(upper@, match tag {
                Some(t) => Some(t@),
                None => None,
            }),
    {
        let (line, done, close): (&str, &str, bool) = if starts_with(upper, "CAPABILITY") {
            ("* CAPABILITY IMAP4rev1\r\n", " OK CAPABILITY completed\r\n", false)
        } else if starts_with(upper, "NOOP") {
            ("", " OK NOOP completed\r\n", false)
        } else if starts_with(upper, "LOGOUT") {
            ("* BYE Proxy closing connection\r\n", " OK LOGOUT completed\r\n", true)
        } else {
            ("", " BAD Command not understood\r\n", false)
        };
        proof {
            reveal_strlit("");
        }
        assert(""@ =~= Seq::<char>::empty());
        let mut out = line.to_owned();
        match tag {
            Some(t) => {
                out.append(t);
                out.append(done);
            },
            None => {},
        }
        (out, close)
    }

    /// The reply to a command as the client sent it.
    pub fn reply(command: &str) -> (r: (String, bool))
        ensures
            (r.0@, r.1) == imap_reply_spec(upper_of(command@), first_word_of(command@)),
    {
        let upper = uppercase(command);
        let word = first_word(command);
        match word {
            Some(w) => Self::reply_for(upper.as_str(), Some(w.as_str())),
            None => Self::reply_for(upper.as_str(), None),
        }
    }
}

/// Whether `c` is white space in Unicode's sense (the `White_Space`
/// property, as `char::is_whitespace` uses it).
pub open spec fn is_space(c: char) -> bool {
    let u = c as u32;
    (9 <= u && u <= 13) || u == 32 || u == 0x85 || u == 0xA0 || u == 0x1680 || (0x2000 <= u && u <= 0x200A)
        || u == 0x2028 || u == 0x2029 || u == 0x202F || u == 0x205F || u == 0x3000
}

fn space_char(c: char) -> (r: bool)
    ensures
        r == is_space(c),
{
    let u = c as u32;
    (9 <= u && u <= 13) || u == 32 || u == 0x85 || u == 0xA0 || u == 0x1680 || (0x2000 <= u && u <= 0x200A)
        || u == 0x2028 || u == 0x2029 || u == 0x202F || u == 0x205F || u == 0x3000
}

/// The characters of `s` up to its first white space.
pub open spec fn word_prefix(s: Seq<char>) -> Seq<char>
    decreases s.len(),
{
    if s.len() == 0 || is_space(s[0]) {
        Seq::empty()
    } else {
        seq![s[0]] + word_prefix(s.drop_first())
    }
}

/// The first word of a text: leading white space skipped, then the
/// characters up to the next white space; `None` for a text of white space.
pub open spec fn first_word_of(s: Seq<char>) -> Option<Seq<char>>
    decreases s.len(),
{
    if s.len() == 0 {
        None
    } else if is_space(s[0]) {
        first_word_of(s.drop_first())
    } else {
        Some(word_prefix(s))
    }
}

/// The first word of `s` (see `first_word_of`).
pub fn first_word(s: &str) -> (r: Option<String>)
    ensures
        match r {
            Some(w) => first_word_of(s@) == Some(w@),
            None => first_word_of(s@) is None,
        },
{
    let n = s.unicode_len();
    let mut i: usize = 0;
    assert(s@.skip(0) =~= s@);
    while i < n && space_char(s.get_char(i))
        invariant
            n == s@.len(),
            i <= n,
            first_word_of(s@) == first_word_of(s@.skip(i as int)),
        decreases n - i,
    {
        assert(s@.skip(i as int).drop_first() =~= s@.skip(i as int + 1));
        i = i + 1;
    }
    if i == n {
        assert(s@.skip(i as int).len() == 0);
        return None;
    }
    let mut j: usize = i;
    assert(s@.subrange(i as int, i as int) + s@.skip(i as int) =~= s@.skip(i as int));
    while j < n && !space_char(s.get_char(j))
        invariant
            n == s@.len(),
            i <= j <= n,
            word_prefix(s@.skip(i as int)) == s@.subrange(i as int, j as int) + word_prefix(s@.skip(j as int)),
        decreases n - j,
    {
        assert(s@.skip(j as int).drop_first() =~= s@.skip(j as int + 1));
        assert(s@.subrange(i as int, j as int) + (seq![s@[j as int]] + word_prefix(s@.skip(j as int + 1)))
            =~= s@.subrange(i as int, j as int + 1) + word_prefix(s@.skip(j as int + 1)));
        j = j + 1;
    }
    assert(word_prefix(s@.skip(j as int)) =~= Seq::<char>::empty());
    assert(s@.subrange(i as int, j as int) + Seq::<char>::empty() =~= s@.subrange(i as int, j as int));
    Some(s.substring_char(i, j).to_owned())
}

/// An IMAP reply: an untagged line, then (when the command has a tag) the
/// tagged completion; and whether the session ends.
pub open spec fn imap_reply_spec(upper: Seq<char>, tag: Option<Seq<char>>) -> (Seq<char>, bool) {
    let (line, done, close) = if has_prefix(upper, "CAPABILITY"@) {
        ("* CAPABILITY IMAP4rev1\r\n"@, " OK CAPABILITY completed\r\n"@, false)
    } else if has_prefix(upper, "NOOP"@) {
        (Seq::<char>::empty(), " OK NOOP completed\r\n"@, false)
    } else if has_prefix(upper, "LOGOUT"@) {
        ("* BYE Proxy closing connection\r\n"@, " OK LOGOUT completed\r\n"@, true)
    } else {
        (Seq::<char>::empty(), " BAD Command not understood\r\n"@, false)
    };
    match tag {
        Some(t) => (line + t + done, close),
        None => (line, close),
    }
}

/// The upper case of a text, as `str::to_uppercase` gives it.
pub uninterp spec fn upper_of(s: Seq<char>) -> Seq<char>;

/// Relies on `str::to_uppercase`: the result depends on the characters alone.
#[verifier::external_body]
fn uppercase(s: &str) -> (r: String)
    ensures
        r@ == upper_of(s@),
{
    s.to_uppercase()
}

/// A reply text, and whether the session ends after it.
pub open spec fn pop3_reply_spec(upper: Seq<char>) -> (Seq<char>, bool) {
    if has_prefix(upper, "CAPA"@) {
        ("+OK Capability list follows\r\nTOP\r\nUSER\r\nUIDL\r\n.\r\n"@, false)
    } else if has_prefix(upper, "USER"@) {
        ("+OK send PASS\r\n"@, false)
    } else if has_prefix(upper, "PASS"@) {
        ("+OK logged in\r\n"@, false)
    } else if has_prefix(upper, "STAT"@) {
        ("+OK 0 0\r\n"@, false)
    } else if has_prefix(upper, "LIST"@) {
        ("+OK 0 messages\r\n.\r\n"@, false)
    } else if has_prefix(upper, "QUIT"@) {
        ("+OK Proxy closing connection\r\n"@, true)
    } else {
        ("-ERR Command not understood\r\n"@, false)
    }
}

pub struct Pop3Proxy {
    pub addr: String,
}

impl Pop3Proxy {
    pub fn new(addr: String) -> (r: Self)
        ensures
            r.addr == addr,
    {
        Pop3Proxy { addr }
    }

    /// The reply to a command already in upper case.
    pub fn reply_for(upper: &str) -> (r: (String, bool))
        ensures
            (r.0@, r.1) == pop3_reply_spec(upper@),
    {
        let (text, close) = if starts_with(upper, "CAPA") {
            ("+OK Capability list follows\r\nTOP\r\nUSER\r\nUIDL\r\n.\r\n", false)
        } else if starts_with(upper, "USER") {
            ("+OK send PASS\r\n", false)
        } else if starts_with(upper, "PASS") {
            ("+OK logged in\r\n", false)
        } else if starts_with(upper, "STAT") {
            ("+OK 0 0\r\n", false)
        } else if starts_with(upper, "LIST") {
            ("+OK 0 messages\r\n.\r\n", false)
        } else if starts_with(upper, "QUIT") {
            ("+OK Proxy closing connection\r\n", true)
        } else {
            ("-ERR Command not understood\r\n", false)
        };
        (text.to_owned(), close)
    }

    /// The reply to a command as the client sent it.
    pub fn reply(command: &str) -> (r: (String, bool))
        ensures
            (r.0@, r.1) == pop3_reply_spec(upper_of(command@)),
    {
        let upper = uppercase(command);
        Self::reply_for(upper.as_str())
    }
}

/// What an SMTP command gets: the reply, whether the session ends, and
/// whether message data follows.
pub open spec fn smtp_reply_spec(upper: Seq<char>) -> (Seq<char>, bool, bool) {
    if has_prefix(upper, "EHLO"@) {
        (EHLO_REPLY@, false, false)
    } else if has_prefix(upper, "HELO"@) {
        ("250 smtp.proxy.local\r\n"@, false, false)
    } else if has_prefix(upper, "MAIL FROM"@) || has_prefix(upper, "RCPT TO"@) {
        ("250 Ok\r\n"@, false, false)
    } else if has_prefix(upper, "DATA"@) {
        ("354 End data with <CR><LF>.<CR><LF>\r\n"@, false, true)
    } else if has_prefix(upper, "QUIT"@) {
        ("221 Bye\r\n"@, true, false)
    } else if has_prefix(upper, "RSET"@) || has_prefix(upper, "NOOP"@) {
        ("250 Ok\r\n"@, false, false)
    } else if has_prefix(upper, "VRFY"@) {
        ("252 Cannot VRFY user\r\n"@, false, false)
    } else if has_prefix(upper, "EXPN"@) {
        ("252 Cannot EXPN\r\n"@, false, false)
    } else {
        ("500 Command not understood\r\n"@, false, false)
    }
}

pub const EHLO_REPLY: &'static str = "250-smtp.proxy.local\r\n250-PIPELINING\r\n250-SIZE 10240000\r\n250-VRFY\r\n250-ETRN\r\n250-STARTTLS\r\n250-AUTH PLAIN LOGIN\r\n250-AUTH=PLAIN LOGIN\r\n250-ENHANCEDSTATUSCODES\r\n250-8BITMIME\r\n250 DSN\r\n";

/// The reply after message data has ended.
pub const QUEUED_REPLY: &'static str = "250 Ok: queued\r\n";

pub struct SmtpProxy {
    pub addr: String,
}

impl SmtpProxy {
    pub fn new(addr: String) -> (r: Self)
        ensures
            r.addr == addr,
    {
        SmtpProxy { addr }
    }

    /// The reply to a command already in upper case.
    pub fn reply_for(upper: &str) -> (r: (String, bool, bool))
        ensures
            (r.0@, r.1, r.2) == smtp_reply_spec(upper@),
    {
        let (text, close, data) = if starts_with(upper, "EHLO") {
            (EHLO_REPLY, false, false)
        } else if starts_with(upper, "HELO") {
            ("250 smtp.proxy.local\r\n", false, false)
        } else if starts_with(upper, "MAIL FROM") || starts_with(upper, "RCPT TO") {
            ("250 Ok\r\n", false, false)
        } else if starts_with(upper, "DATA") {
            ("354 End data with <CR><LF>.<CR><LF>\r\n", false, true)
        } else if starts_with(upper, "QUIT") {
            ("221 Bye\r\n", true, false)
        } else if starts_with(upper, "RSET") || starts_with(upper, "NOOP") {
            ("250 Ok\r\n", false, false)
        } else if starts_with(upper, "VRFY") {
            ("252 Cannot VRFY user\r\n", false, false)
        } else if starts_with(upper, "EXPN") {
            ("252 Cannot EXPN\r\n", false, false)
        } else {
            ("500 Command not understood\r\n", false, false)
        };
        (text.to_owned(), close, data)
    }

    /// The reply to a command as the client sent it.
    pub fn reply(command: &str) -> (r: (String, bool, bool))
        ensures
            (r.0@, r.1, r.2) == smtp_reply_spec(upper_of(command@)),
    {
        let upper = uppercase(command);
        Self::reply_for(upper.as_str())
    }

    /// Whether a chunk of message data ends the message: it ends with CR LF `.`.
    pub fn data_finished(chunk: &[u8]) -> (r: bool)
        ensures
            r == (chunk@.len() >= 3 && chunk@[chunk@.len() - 3] == 13u8 && chunk@[chunk@.len() - 2] == 10u8
                && chunk@[chunk@.len() - 1] == 46u8),
    {
        let n = chunk.len();
        n >= 3 && chunk[n - 3] == 13 && chunk[n - 2] == 10 && chunk[n - 1] == 46
    }
}

} // verus!
