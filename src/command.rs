//! The client's rules: what a typed line asks for, which paths may be sent as
//! images, and what to do with a message that arrives.

use vstd::prelude::*;
use vstd::string::*;
use crate::message::{AuthAction, MessageType, MessageView};

verus! {

/// Why a typed command could not become a message.
#[derive(Debug, Clone, Copy, PartialEq, Eq, Structural)]
pub enum CommandError {
    /// The path has no extension.
    NoExtension,
    /// The path's extension is not `png`.
    NotPng,
    /// The path does not end in a file name.
    NoFileName,
}

/// What a line typed by the user asks for.
#[derive(Debug, Clone, PartialEq, Eq)]
pub enum UserInput {
    /// `.quit`: leave.
    Quit,
    /// `.file <path>`: send the file at the path.
    File(String),
    /// `.image <path>`: send the PNG image at the path.
    Image(String),
    /// Anything else: send the line as text.
    Text(String),
}

/// What the client does with a message from the relay.
#[derive(Debug, Clone, PartialEq, Eq)]
pub enum Incoming {
    /// Show this text.
    Print(String),
    /// Save these bytes as a file of this name.
    SaveFile(String, Vec<u8>),
    /// Save these bytes as a PNG image.
    SaveImage(Vec<u8>),
    /// Nothing to do.
    Ignore,
}

pub open spec fn has_prefix(s: Seq<char>, p: Seq<char>) -> bool {
    p.len() <= s.len() && s.subrange(0, p.len() as int) == p
}

/// The rest of `s` after `p`, if `s` starts with `p`.
pub fn strip_prefix(s: &str, p: &str) -> (r: Option<String>)
    ensures
        r is Some <==> has_prefix(s@, p@),
        r matches Some(t) ==> t@ == s@.subrange(p@.len() as int, s@.len() as int),
{
    let n = s.unicode_len();
    let m = p.unicode_len();
    if m > n {
        return None;
    }
    let mut i: usize = 0;
    while i < m
        invariant
            m == p@.len(),
            n == s@.len(),
            m <= n,
            i <= m,
            s@.subrange(0, i as int) == p@.subrange(0, i as int),
        decreases m - i,
    {
        if s.get_char(i) != p.get_char(i) {
            assert(s@.subrange(0, m as int)[i as int] != p@[i as int]);
            return None;
        }
        i = i + 1;
        assert(s@.subrange(0, i as int) =~= p@.subrange(0, i as int));
    }
    assert(p@.subrange(0, m as int) =~= p@);
    Some(String::from_str(s.substring_char(m, n)))
}

/// Whether `a` and `b` hold the same characters.
pub fn same_text(a: &str, b: &str) -> (r: bool)
    ensures
        r == (a@ == b@),
{
    if a.unicode_len() != b.unicode_len() {
        return false;
    }
    match strip_prefix(a, b) {
        Some(_) => {
            assert(a@.subrange(0, b@.len() as int) == b@);
            assert(a@ =~= a@.subrange(0, b@.len() as int));
            true
        },
        None => {
            assert(a@ != b@) by {
                if a@ == b@ {
                    assert(a@.subrange(0, b@.len() as int) =~= b@);
                }
            }
            false
        },
    }
}

/// The request that a typed line makes.
pub open spec fn user_input_spec(line: Seq<char>) -> (UserInputKind, Seq<char>) {
    if line == ".quit"@ {
        (UserInputKind::Quit, Seq::empty())
    } else if has_prefix(line, ".file "@) {
        (UserInputKind::File, line.subrange(".file "@.len() as int, line.len() as int))
    } else if has_prefix(line, ".image "@) {
        (UserInputKind::Image, line.subrange(".image "@.len() as int, line.len() as int))
    } else {
        (UserInputKind::Text, line)
    }
}

/// Which request a typed line makes.
pub enum UserInputKind {
    Quit,
    File,
    Image,
    Text,
}

impl UserInput {
    /// The request and its argument (path or text).
    pub open spec fn spec_kind(&self) -> (UserInputKind, Seq<char>) {
        match self {
            UserInput::Quit => (UserInputKind::Quit, Seq::empty()),
            UserInput::File(p) => (UserInputKind::File, p@),
            UserInput::Image(p) => (UserInputKind::Image, p@),
            UserInput::Text(t) => (UserInputKind::Text, t@),
        }
    }
}

/// Reads a line typed by the user: `.quit`, `.file <path>`,
/// `.image <path>`, or text to send as it is.
pub fn parse_user_input(line: &str) -> (r: UserInput)
    ensures
        r.spec_kind() == user_input_spec(line@),
{
    if same_text(line, ".quit") {
        return UserInput::Quit;
    }
    match strip_prefix(line, ".file ") {
        Some(path) => {
            return UserInput::File(path);
        },
        None => {},
    }
    match strip_prefix(line, ".image ") {
        Some(path) => UserInput::Image(path),
        None => UserInput::Text(String::from_str(line)),
    }
}

/// The action a user picks when asked to register or log in: `R` or `L`.
pub fn parse_auth_action(input: &str) -> (r: Option<AuthAction>)
    ensures
        input@ == "R"@ ==> r == Some(AuthAction::Register),
        input@ == "L"@ ==> r == Some(AuthAction::Login),
        input@ != "R"@ && input@ != "L"@ ==> r is None,
{
    proof {
        reveal_strlit("R");
        reveal_strlit("L");
        assert("R"@[0] != "L"@[0]);
    }
    if same_text(input, "R") {
        Some(AuthAction::Register)
    } else if same_text(input, "L") {
        Some(AuthAction::Login)
    } else {
        None
    }
}

/// Relies on `std::path::Path::extension`. Where the extension starts
/// follows the platform's path rules, so nothing is promised of it.
#[verifier::external_body]
fn path_extension(path: &str) -> (r: Option<String>) {
    match std::path::Path::new(path).extension() {
        Some(e) => Some(e.to_string_lossy().into_owned()),
        None => None,
    }
}

/// Relies on `std::path::Path::file_name`. What counts as the last component
/// follows the platform's path rules, so nothing is promised of it.
#[verifier::external_body]
fn path_file_name(path: &str) -> (r: Option<String>) {
    match std::path::Path::new(path).file_name() {
        Some(n) => Some(n.to_string_lossy().into_owned()),
        None => None,
    }
}

/// Whether a path with extension `ext` may be sent as an image: only `png`.
pub fn image_extension_verdict(ext: Option<String>) -> (r: Result<(), CommandError>)
    ensures
        ext is None ==> r == Err::<(), CommandError>(CommandError::NoExtension),
        ext matches Some(e) ==> (e@ == "png"@ ==> r is Ok),
        ext matches Some(e) ==> (e@ != "png"@ ==> r == Err::<(), CommandError>(CommandError::NotPng)),
{
    match ext {
        None => Err(CommandError::NoExtension),
        Some(e) => if same_text(e.as_str(), "png") {
            Ok(())
        } else {
            Err(CommandError::NotPng)
        },
    }
}

/// Whether the file at `path` may be sent as an image.
pub fn check_image_path(path: &str) -> (r: Result<(), CommandError>)
    ensures
        r is Err ==> r == Err::<(), CommandError>(CommandError::NoExtension) || r == Err::<
            (),
            CommandError,
        >(CommandError::NotPng),
{
    image_extension_verdict(path_extension(path))
}

/// The message that sends `bytes` as a file called `name`; a path without a
/// file name (`None`) cannot be sent.
pub fn named_file_message(name: Option<String>, bytes: Vec<u8>) -> (r: Result<MessageType, CommandError>)
    ensures
        name is None ==> r == Err::<MessageType, CommandError>(CommandError::NoFileName),
        name matches Some(n) ==> (r matches Ok(m) && m@ == MessageView::File(n@, bytes@)),
{
    match name {
        None => Err(CommandError::NoFileName),
        Some(n) => Ok(MessageType::File(n, bytes)),
    }
}

/// The message that sends `bytes`, read from `path`, as a file under the
/// path's last component.
pub fn file_message(path: &str, bytes: Vec<u8>) -> (r: Result<MessageType, CommandError>)
    ensures
        r is Err ==> r == Err::<MessageType, CommandError>(CommandError::NoFileName),
        r matches Ok(m) ==> (m@ matches MessageView::File(_, d) && d == bytes@),
{
    named_file_message(path_file_name(path), bytes)
}

/// What the client does with a message from the relay: text is shown, files
/// and images are saved, anything else is ignored.
pub fn incoming_action(m: MessageType) -> (r: Incoming)
    ensures
        match (m@, r) {
            (MessageView::Text(t), Incoming::Print(s)) => s@ == t,
            (MessageView::File(n, d), Incoming::SaveFile(s, b)) => s@ == n && b@ == d,
            (MessageView::Image(d), Incoming::SaveImage(b)) => b@ == d,
            (MessageView::AuthRequest(_, _, _), Incoming::Ignore) => true,
            (MessageView::AuthResponse(_, _), Incoming::Ignore) => true,
            _ => false,
        },
{
    match m {
        MessageType::Text(t) => Incoming::Print(t),
        MessageType::File(n, d) => Incoming::SaveFile(n, d),
        MessageType::Image(d) => Incoming::SaveImage(d),
        _ => Incoming::Ignore,
    }
}

/// The outcome carried by the relay's answer to an authentication request,
/// or `None` when the answer is some other message.
pub fn auth_response(m: &MessageType) -> (r: Option<(bool, String)>)
    ensures
        match m@ {
            MessageView::AuthResponse(ok, d) => r matches Some((k, s)) && k == ok && s@ == d,
            _ => r is None,
        },
{
    match m {
        MessageType::AuthResponse(ok, d) => Some((*ok, d.clone())),
        _ => None,
    }
}

} // verus!
