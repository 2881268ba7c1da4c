//! Bearer-token lifecycle decisions. Hardened: a stored token file must be
//! a regular file (never a symlink) owned by the current user with mode
//! 0600; a new token is 256 bits of OS randomness in hex. Reading and
//! writing files is left to the caller.
use vstd::prelude::*;
use crate::text::{hex_lower, to_hex};

verus! {

/// Why a token could not be had. The messages never carry token material.
#[derive(Debug)]
pub enum TokenError {
    Io(String),
    Refused(String),
    NoEntropy(String),
}

pub enum TokenErrorView {
    Io(Seq<char>),
    Refused(Seq<char>),
    NoEntropy(Seq<char>),
}

impl View for TokenError {
    type V = TokenErrorView;

    open spec fn view(&self) -> TokenErrorView {
        match self {
            TokenError::Io(e) => TokenErrorView::Io(e@),
            TokenError::Refused(e) => TokenErrorView::Refused(e@),
            TokenError::NoEntropy(e) => TokenErrorView::NoEntropy(e@),
        }
    }
}

pub open spec fn error_text(e: TokenErrorView) -> Seq<char> {
    match e {
        TokenErrorView::Io(m) => "token storage error: "@ + m,
        TokenErrorView::Refused(m) => "token file refused: "@ + m,
        TokenErrorView::NoEntropy(m) => "no secure randomness: "@ + m,
    }
}

impl TokenError {
    /// The human-readable message.
    pub fn message(&self) -> (r: String)
        ensures
            r@ == error_text(self@),
    {
        match self {
            TokenError::Io(e) => {
                let mut r = "token storage error: ".to_owned();
                r.append(e.as_str());
                r
            },
            TokenError::Refused(e) => {
                let mut r = "token file refused: ".to_owned();
                r.append(e.as_str());
                r
            },
            TokenError::NoEntropy(e) => {
                let mut r = "no secure randomness: ".to_owned();
                r.append(e.as_str());
                r
            },
        }
    }
}

/// What `symlink_metadata` says of an existing token file.
#[derive(Debug, Clone, Copy)]
pub struct FileFacts {
    pub is_symlink: bool,
    pub is_file: bool,
    pub uid: u32,
    pub mode: u32,
}

pub open spec fn refused_because(f: FileFacts, current_uid: u32) -> Option<Seq<char>> {
    if f.is_symlink {
        Some("is a symlink"@)
    } else if !f.is_file {
        Some("not a regular file"@)
    } else if f.uid != current_uid {
        Some("not owned by current user"@)
    } else if f.mode % 512 != 384 {
        Some("permissions are not 0600"@)
    } else {
        None
    }
}

/// Rejects symlinks and anything that is not a plain file owned by the
/// current user with permissions exactly 0600.
pub fn inspect(facts: &FileFacts, current_uid: u32) -> (r: Result<(), TokenError>)
    ensures
        match refused_because(*facts, current_uid) {
            None => r is Ok,
            Some(why) => r matches Err(e) && e@ == TokenErrorView::Refused(why),
        },
{
    if facts.is_symlink {
        return Err(TokenError::Refused("is a symlink".to_owned()));
    }
    if !facts.is_file {
        return Err(TokenError::Refused("not a regular file".to_owned()));
    }
    if facts.uid != current_uid {
        return Err(TokenError::Refused("not owned by current user".to_owned()));
    }
    let mode = facts.mode;
    assert(mode & 0o777 == mode % 512) by (bit_vector);
    if mode & 0o777 != 0o600 {
        return Err(TokenError::Refused("permissions are not 0600".to_owned()));
    }
    Ok(())
}

/// What the first look at the token path found.
pub enum TokenProbe {
    /// Something exists there.
    Exists,
    /// Nothing exists there.
    Missing,
    /// The look failed otherwise, with this message.
    Failed(String),
}

/// What to do next.
pub enum TokenPlan {
    /// Inspect the existing file strictly, then read it without following
    /// symlinks.
    UseExisting,
    /// Create the parent directory, mint a token and create the file new,
    /// with mode 0600.
    MintNew,
    /// Give up.
    Refuse(TokenError),
}

/// Loads an existing verified token, or creates one; never follows
/// symlinks; any other failure to look is an I/O error.
pub fn plan_token(probe: TokenProbe) -> (r: TokenPlan)
    ensures
        match probe {
            TokenProbe::Exists => r is UseExisting,
            TokenProbe::Missing => r is MintNew,
            TokenProbe::Failed(m) => r matches TokenPlan::Refuse(e) && e@ == TokenErrorView::Io(
                m@,
            ),
        },
{
    match probe {
        TokenProbe::Exists => TokenPlan::UseExisting,
        TokenProbe::Missing => TokenPlan::MintNew,
        TokenProbe::Failed(m) => TokenPlan::Refuse(TokenError::Io(m)),
    }
}

/// Whether a character has the Unicode `White_Space` property (what
/// `char::is_whitespace` tests).
pub open spec fn is_white_space(c: char) -> bool {
    let n = c as u32;
    ||| 9 <= n <= 13
    ||| n == 32
    ||| n == 0x85
    ||| n == 0xa0
    ||| n == 0x1680
    ||| 0x2000 <= n <= 0x200a
    ||| n == 0x2028
    ||| n == 0x2029
    ||| n == 0x202f
    ||| n == 0x205f
    ||| n == 0x3000
}

/// The text without its leading whitespace.
pub open spec fn trim_start(s: Seq<char>) -> Seq<char>
    decreases s.len(),
{
    if s.len() > 0 && is_white_space(s[0]) {
        trim_start(s.drop_first())
    } else {
        s
    }
}

/// The text without its trailing whitespace.
pub open spec fn trim_end(s: Seq<char>) -> Seq<char>
    decreases s.len(),
{
    if s.len() > 0 && is_white_space(s.last()) {
        trim_end(s.drop_last())
    } else {
        s
    }
}

/// The text with leading and trailing whitespace removed.
pub open spec fn trimmed(s: Seq<char>) -> Seq<char> {
    trim_end(trim_start(s))
}

/// `str::trim`. Claims: the text without leading and trailing whitespace,
/// whitespace being the Unicode `White_Space` property, as the documentation
/// of `str::trim` defines it.
#[verifier::external_body]
fn trim(s: &str) -> (r: &str)
    ensures
        r@ == trimmed(s@),
{
    s.trim()
}

/// The token a stored file's text gives: the text trimmed, unless that is
/// shorter than 32 bytes.
pub open spec fn stored_token(content: Seq<char>) -> Option<Seq<char>> {
    let t = trimmed(content);
    if vstd::utf8::encode_utf8(t).len() < 32 {
        None
    } else {
        Some(t)
    }
}

/// A stored token is the file's text trimmed; fewer than 32 bytes is
/// refused.
pub fn accept_stored(content: &str) -> (r: Result<String, TokenError>)
    ensures
        match stored_token(content@) {
            None => r matches Err(e) && e@ == TokenErrorView::Refused("token too short"@),
            Some(t) => r matches Ok(s) && s@ == t,
        },
{
    let t = trim(content);
    if t.as_bytes().len() < 32 {
        return Err(TokenError::Refused("token too short".to_owned()));
    }
    Ok(t.to_owned())
}

/// The number of random bytes in a token (256 bits).
pub const TOKEN_BYTES: usize = 32;

/// A new token from 32 bytes of OS randomness: their lower-case hex.
pub fn mint(entropy: &[u8]) -> (r: String)
    requires
        entropy@.len() == TOKEN_BYTES,
    ensures
        r@ == hex_lower(entropy@),
        r@.len() == 64,
{
    proof {
        crate::text::lemma_hex_lower_len(entropy@);
    }
    to_hex(entropy)
}

/// Opening a new token file failed: if it appeared meanwhile, refuse;
/// otherwise an I/O error.
pub fn creation_error(already_exists: bool, message: String) -> (r: TokenError)
    ensures
        already_exists ==> r@ == TokenErrorView::Refused("appeared concurrently; refusing"@),
        !already_exists ==> r@ == TokenErrorView::Io(message@),
{
    if already_exists {
        TokenError::Refused("appeared concurrently; refusing".to_owned())
    } else {
        TokenError::Io(message)
    }
}

/// Where the token lives.
pub enum TokenLocation {
    /// Exactly this path.
    File(String),
    /// `<dir>/openrdc/token`.
    ConfigDir(String),
    /// `<home>/.config/openrdc/token`.
    HomeDir(String),
}

/// `OPENRDC_TOKEN_FILE` if set; else under `XDG_CONFIG_HOME`; else under
/// `$HOME/.config`, with `/tmp` standing in for an unset `HOME`.
pub fn token_location(
    token_file: Option<String>,
    xdg_config_home: Option<String>,
    home: Option<String>,
) -> (r: TokenLocation)
    ensures
        match (token_file, xdg_config_home, home) {
            (Some(p), _, _) => r matches TokenLocation::File(q) && q@ == p@,
            (None, Some(x), _) => r matches TokenLocation::ConfigDir(q) && q@ == x@,
            (None, None, Some(h)) => r matches TokenLocation::HomeDir(q) && q@ == h@,
            (None, None, None) => r matches TokenLocation::HomeDir(q) && q@ == "/tmp"@,
        },
{
    match token_file {
        Some(p) => TokenLocation::File(p),
        None => match xdg_config_home {
            Some(x) => TokenLocation::ConfigDir(x),
            None => match home {
                Some(h) => TokenLocation::HomeDir(h),
                None => TokenLocation::HomeDir("/tmp".to_owned()),
            },
        },
    }
}

/// Every character of a token's hex text is a lower-case hex digit.
proof fn lemma_hex_lower_digits(bytes: Seq<u8>)
    ensures
        forall|k: int|
            0 <= k < hex_lower(bytes).len() ==> ('0' <= #[trigger] hex_lower(bytes)[k] <= '9') || (
            'a' <= hex_lower(bytes)[k] <= 'f'),
    decreases bytes.len(),
{
    crate::text::lemma_hex_lower_len(bytes);
    if bytes.len() > 0 {
        let p = bytes.drop_last();
        lemma_hex_lower_digits(p);
        crate::text::lemma_hex_lower_len(p);
        let h = hex_lower(bytes);
        let hp = hex_lower(p);
        assert forall|k: int| 0 <= k < h.len() implies ('0' <= #[trigger] h[k] <= '9') || (
        'a' <= h[k] <= 'f') by {
            if k < hp.len() {
                assert(h[k] == hp[k]);
            }
        }
    }
}

/// Law: a token minted from 32 random bytes and written to a new file
/// (a regular file of the current user, mode 0600) is accepted as that very
/// token when the unchanged file is loaded again.
pub proof fn law_reload_same_token(entropy: Seq<u8>, facts: FileFacts, uid: u32)
    requires
        entropy.len() == TOKEN_BYTES,
        !facts.is_symlink,
        facts.is_file,
        facts.uid == uid,
        facts.mode == 0o100600,
    ensures
        refused_because(facts, uid) is None,
        stored_token(hex_lower(entropy)) == Some(hex_lower(entropy)),
{
    let t = hex_lower(entropy);
    crate::text::lemma_hex_lower_len(entropy);
    lemma_hex_lower_digits(entropy);
    assert(t.len() == 64);
    assert(!is_white_space(t[0]));
    assert(trim_start(t) == t);
    assert(!is_white_space(t.last()));
    assert(trim_end(t) == t);
    assert(vstd::utf8::is_ascii_chars(t));
    vstd::utf8::is_ascii_chars_encode_utf8(t);
}

} // verus!
