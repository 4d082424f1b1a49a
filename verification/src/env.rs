//! NEW-ENVIRON (RFC 1572) environment-variable subnegotiation: the
//! VAR/USERVAR/VALUE grammar with its `ESC`-prefixed escapes.

use vstd::prelude::*;
use vstd::utf8::{decode_utf8, encode_utf8, valid_utf8};

use crate::constants::{ENV_ESC, ENV_INFO, ENV_IS, ENV_SEND, ENV_USERVAR, ENV_VALUE, ENV_VAR, IAC};

verus! {

/// An operation of the NEW-ENVIRON subnegotiation.
#[derive(Clone, Debug, Eq, PartialEq)]
pub enum EnvironmentOperation {
    /// Sends the keys and values of environment variables.
    Is(Vec<(EnvironmentKind, Option<Vec<u8>>)>),
    /// Requests environment variables.
    Send(Vec<EnvironmentKind>),
    /// Notifies the other side of environment variable changes.
    Info(Vec<(EnvironmentKind, Option<Vec<u8>>)>),
    /// An operation this library does not recognize, with its payload.
    Unknown(u8, Vec<u8>),
}

/// The kind of an environment variable: well known or user defined. A `None`
/// inner value is a wildcard, meaningful only inside `Send`.
#[derive(Clone, Debug, Eq, PartialEq)]
pub enum EnvironmentKind {
    /// A variable from the well-known set.
    WellKnown(Option<WellKnownVariable>),
    /// A variable defined by the user.
    UserDefined(Option<String>),
}

/// A well-known environment variable name of RFC 1572.
#[derive(Clone, Debug, Eq, PartialEq)]
pub enum WellKnownVariable {
    /// The user name the client wishes to log in as.
    User,
    /// The job id the user wants to use.
    Job,
    /// The account id of the user.
    Acct,
    /// The default location for printer output.
    Printer,
    /// The type of the operating system.
    SystemType,
    /// The location of the X display.
    Display,
    /// A variable name outside the well-known set.
    Unknown(String),
}

/// The mathematical value of a [`WellKnownVariable`]: its name as a
/// character sequence is carried in the `Unknown` arm.
pub enum WellKnownVariableView {
    /// See [`WellKnownVariable::User`].
    User,
    /// See [`WellKnownVariable::Job`].
    Job,
    /// See [`WellKnownVariable::Acct`].
    Acct,
    /// See [`WellKnownVariable::Printer`].
    Printer,
    /// See [`WellKnownVariable::SystemType`].
    SystemType,
    /// See [`WellKnownVariable::Display`].
    Display,
    /// See [`WellKnownVariable::Unknown`].
    Unknown(Seq<char>),
}

impl View for WellKnownVariable {
    type V = WellKnownVariableView;

    open spec fn view(&self) -> WellKnownVariableView {
        match self {
            WellKnownVariable::User => WellKnownVariableView::User,
            WellKnownVariable::Job => WellKnownVariableView::Job,
            WellKnownVariable::Acct => WellKnownVariableView::Acct,
            WellKnownVariable::Printer => WellKnownVariableView::Printer,
            WellKnownVariable::SystemType => WellKnownVariableView::SystemType,
            WellKnownVariable::Display => WellKnownVariableView::Display,
            WellKnownVariable::Unknown(s) => WellKnownVariableView::Unknown(s@),
        }
    }
}

/// The mathematical value of an [`EnvironmentKind`]: names as character
/// sequences.
pub enum EnvironmentKindView {
    /// See [`EnvironmentKind::WellKnown`].
    WellKnown(Option<WellKnownVariableView>),
    /// See [`EnvironmentKind::UserDefined`].
    UserDefined(Option<Seq<char>>),
}

impl View for EnvironmentKind {
    type V = EnvironmentKindView;

    open spec fn view(&self) -> EnvironmentKindView {
        match self {
            EnvironmentKind::WellKnown(v) => EnvironmentKindView::WellKnown(
                match v {
                    Some(w) => Some(w@),
                    None => None,
                },
            ),
            EnvironmentKind::UserDefined(s) => EnvironmentKindView::UserDefined(
                match s {
                    Some(n) => Some(n@),
                    None => None,
                },
            ),
        }
    }
}

/// The mathematical value of one `Is`/`Info` entry: a kind and an optional
/// value.
pub open spec fn env_entry_view(e: (EnvironmentKind, Option<Vec<u8>>)) -> (
    EnvironmentKindView,
    Option<Seq<u8>>,
) {
    (
        e.0@,
        match e.1 {
            Some(v) => Some(v@),
            None => None,
        },
    )
}

/// The mathematical value of an `Is`/`Info` entry list.
pub open spec fn env_entries_view(v: Seq<(EnvironmentKind, Option<Vec<u8>>)>) -> Seq<
    (EnvironmentKindView, Option<Seq<u8>>),
> {
    v.map_values(|e: (EnvironmentKind, Option<Vec<u8>>)| env_entry_view(e))
}

/// The mathematical value of a `Send` kind list.
pub open spec fn env_kinds_view(v: Seq<EnvironmentKind>) -> Seq<EnvironmentKindView> {
    v.map_values(|k: EnvironmentKind| k@)
}

/// The mathematical value of an [`EnvironmentOperation`].
pub enum EnvironmentOperationView {
    /// See [`EnvironmentOperation::Is`].
    Is(Seq<(EnvironmentKindView, Option<Seq<u8>>)>),
    /// See [`EnvironmentOperation::Send`].
    Send(Seq<EnvironmentKindView>),
    /// See [`EnvironmentOperation::Info`].
    Info(Seq<(EnvironmentKindView, Option<Seq<u8>>)>),
    /// See [`EnvironmentOperation::Unknown`].
    Unknown(u8, Seq<u8>),
}

impl View for EnvironmentOperation {
    type V = EnvironmentOperationView;

    open spec fn view(&self) -> EnvironmentOperationView {
        match self {
            EnvironmentOperation::Is(vars) => EnvironmentOperationView::Is(
                env_entries_view(vars@),
            ),
            EnvironmentOperation::Send(kinds) => EnvironmentOperationView::Send(
                env_kinds_view(kinds@),
            ),
            EnvironmentOperation::Info(vars) => EnvironmentOperationView::Info(
                env_entries_view(vars@),
            ),
            EnvironmentOperation::Unknown(op, data) => EnvironmentOperationView::Unknown(
                *op,
                data@,
            ),
        }
    }
}

impl WellKnownVariableView {
    /// The name of this variable as a character sequence.
    pub open spec fn name_chars(self) -> Seq<char> {
        match self {
            WellKnownVariableView::User => "USER"@,
            WellKnownVariableView::Job => "JOB"@,
            WellKnownVariableView::Acct => "ACCT"@,
            WellKnownVariableView::Printer => "PRINTER"@,
            WellKnownVariableView::SystemType => "SYSTEMTYPE"@,
            WellKnownVariableView::Display => "DISPLAY"@,
            WellKnownVariableView::Unknown(s) => s,
        }
    }

    /// The variable named by a character sequence.
    pub open spec fn spec_from_name(name: Seq<char>) -> WellKnownVariableView {
        if name == "USER"@ {
            WellKnownVariableView::User
        } else if name == "JOB"@ {
            WellKnownVariableView::Job
        } else if name == "ACCT"@ {
            WellKnownVariableView::Acct
        } else if name == "PRINTER"@ {
            WellKnownVariableView::Printer
        } else if name == "SYSTEMTYPE"@ {
            WellKnownVariableView::SystemType
        } else if name == "DISPLAY"@ {
            WellKnownVariableView::Display
        } else {
            WellKnownVariableView::Unknown(name)
        }
    }
}

/// Compares two string slices by their characters.
fn str_eq(a: &str, b: &str) -> (r: bool)
    ensures
        r == (a@ == b@),
{
    let x: String = a.to_owned();
    let y: String = b.to_owned();
    x == y
}

impl WellKnownVariable {
    /// Reads a well-known variable from its name; an unlisted name yields
    /// `Unknown`.
    pub fn from_name(value: &str) -> (r: WellKnownVariable)
        ensures
            r@ == WellKnownVariableView::spec_from_name(value@),
    {
        if str_eq(value, "USER") {
            WellKnownVariable::User
        } else if str_eq(value, "JOB") {
            WellKnownVariable::Job
        } else if str_eq(value, "ACCT") {
            WellKnownVariable::Acct
        } else if str_eq(value, "PRINTER") {
            WellKnownVariable::Printer
        } else if str_eq(value, "SYSTEMTYPE") {
            WellKnownVariable::SystemType
        } else if str_eq(value, "DISPLAY") {
            WellKnownVariable::Display
        } else {
            WellKnownVariable::Unknown(value.to_owned())
        }
    }

    /// The name of this variable.
    pub fn as_str(&self) -> (r: &str)
        ensures
            r@ == self@.name_chars(),
    {
        match self {
            WellKnownVariable::User => "USER",
            WellKnownVariable::Job => "JOB",
            WellKnownVariable::Acct => "ACCT",
            WellKnownVariable::Printer => "PRINTER",
            WellKnownVariable::SystemType => "SYSTEMTYPE",
            WellKnownVariable::Display => "DISPLAY",
            WellKnownVariable::Unknown(s) => s.as_str(),
        }
    }

    /// The length in bytes of this variable's name on the wire, before
    /// escaping.
    pub open spec fn spec_encoded_size(self) -> nat {
        encode_utf8(self@.name_chars()).len()
    }

    /// The length in bytes of this variable's name on the wire, before
    /// escaping.
    pub fn encoded_size(&self) -> (r: usize)
        requires
            self.spec_encoded_size() <= usize::MAX,
        ensures
            r == self.spec_encoded_size(),
    {
        self.as_str().len()
    }
}

impl EnvironmentKindView {
    /// The tag byte introducing this kind on the wire.
    pub open spec fn spec_byte(self) -> u8 {
        match self {
            EnvironmentKindView::WellKnown(_) => ENV_VAR,
            EnvironmentKindView::UserDefined(_) => ENV_USERVAR,
        }
    }

    /// The name carried by this kind, or `None` for a wildcard.
    pub open spec fn name_view(self) -> Option<Seq<char>> {
        match self {
            EnvironmentKindView::WellKnown(Some(v)) => Some(v.name_chars()),
            EnvironmentKindView::UserDefined(Some(s)) => Some(s),
            EnvironmentKindView::WellKnown(None) => None,
            EnvironmentKindView::UserDefined(None) => None,
        }
    }
}

impl EnvironmentKind {
    /// The tag byte introducing this kind on the wire.
    pub fn as_u8(&self) -> (r: u8)
        ensures
            r == self@.spec_byte(),
    {
        match self {
            EnvironmentKind::WellKnown(_) => ENV_VAR,
            EnvironmentKind::UserDefined(_) => ENV_USERVAR,
        }
    }

    /// True when this kind carries no name and so stands for every variable
    /// of its kind.
    pub fn is_wildcard(&self) -> (r: bool)
        ensures
            r == (self@.name_view() is None),
    {
        match self {
            EnvironmentKind::WellKnown(None) => true,
            EnvironmentKind::UserDefined(None) => true,
            _ => false,
        }
    }

    /// The name carried by this kind, or `None` for a wildcard.
    pub fn name(&self) -> (r: Option<String>)
        ensures
            match r {
                Some(s) => self@.name_view() == Some(s@),
                None => self@.name_view() is None,
            },
    {
        match self {
            EnvironmentKind::WellKnown(Some(v)) => Some(v.as_str().to_owned()),
            EnvironmentKind::UserDefined(Some(s)) => Some(s.clone()),
            EnvironmentKind::WellKnown(None) => None,
            EnvironmentKind::UserDefined(None) => None,
        }
    }

    /// The length in bytes of this kind on the wire before escaping: its tag
    /// byte plus its name, if any.
    pub open spec fn spec_encoded_size(self) -> nat {
        match self@.name_view() {
            Some(name) => 1 + encode_utf8(name).len(),
            None => 1,
        }
    }

    /// The length in bytes of this kind on the wire before escaping: its tag
    /// byte plus its name, if any.
    pub fn encoded_size(&self) -> (r: usize)
        requires
            self.spec_encoded_size() <= usize::MAX,
        ensures
            r == self.spec_encoded_size(),
    {
        match self {
            EnvironmentKind::WellKnown(None) => 1,
            EnvironmentKind::UserDefined(None) => 1,
            EnvironmentKind::WellKnown(Some(v)) => 1 + v.encoded_size(),
            EnvironmentKind::UserDefined(Some(v)) => 1 + v.as_str().len(),
        }
    }
}

/// The escaped form of a byte sequence inside a NEW-ENVIRON payload: each of
/// `VAR`, `VALUE`, `ESC` and `USERVAR` is prefixed with `ESC`, and `IAC` is
/// doubled.
pub open spec fn spec_escape_env(s: Seq<u8>) -> Seq<u8>
    decreases s.len(),
{
    if s.len() == 0 {
        Seq::empty()
    } else {
        spec_escape_env_byte(s[0]) + spec_escape_env(s.skip(1))
    }
}

/// The escaped form of one byte inside a NEW-ENVIRON payload.
pub open spec fn spec_escape_env_byte(b: u8) -> Seq<u8> {
    if b == ENV_ESC || b == ENV_VAR || b == ENV_VALUE || b == ENV_USERVAR {
        seq![ENV_ESC, b]
    } else if b == IAC {
        seq![IAC, IAC]
    } else {
        seq![b]
    }
}

/// Escaping distributes over concatenation.
pub proof fn lemma_escape_env_append(a: Seq<u8>, b: Seq<u8>)
    ensures
        spec_escape_env(a + b) == spec_escape_env(a) + spec_escape_env(b),
    decreases a.len(),
{
    if a.len() == 0 {
        assert(a + b =~= b);
        assert(spec_escape_env(a) + spec_escape_env(b) =~= spec_escape_env(b));
    } else {
        lemma_escape_env_append(a.skip(1), b);
        assert((a + b).skip(1) =~= a.skip(1) + b);
        assert(spec_escape_env(a + b) =~= spec_escape_env(a) + spec_escape_env(b));
    }
}

/// The escape state of the NEW-ENVIRON token scanner.
#[derive(Debug, Copy, Clone, PartialEq, Eq, Structural)]
pub enum EnvScanState {
    /// No escape is pending.
    Clear,
    /// The previous byte was `ESC`.
    AfterEsc,
    /// The previous byte was `IAC`.
    AfterIac,
}

/// Scans an environment variable name inside `s` from position `i`, with
/// escape state `st` and the bytes `acc` already read. Yields the name and
/// the position just past its last input byte, or `None` on a malformed
/// escape. A name ends at an unescaped `VALUE`, `VAR` or `USERVAR` tag, or
/// at the end of the input.
pub open spec fn spec_scan_env_name(s: Seq<u8>, i: int, st: EnvScanState, acc: Seq<u8>) -> Option<
    (Seq<u8>, int),
>
    decreases s.len() - i,
{
    if i < 0 || i >= s.len() {
        match st {
            EnvScanState::Clear => Some((acc, s.len() as int)),
            _ => None,
        }
    } else {
        let b = s[i];
        match st {
            EnvScanState::Clear => {
                if b == ENV_ESC {
                    spec_scan_env_name(s, i + 1, EnvScanState::AfterEsc, acc)
                } else if b == ENV_VALUE || b == ENV_USERVAR || b == ENV_VAR {
                    Some((acc, i))
                } else if b == IAC {
                    spec_scan_env_name(s, i + 1, EnvScanState::AfterIac, acc)
                } else {
                    spec_scan_env_name(s, i + 1, EnvScanState::Clear, acc.push(b))
                }
            },
            EnvScanState::AfterEsc => {
                if b == ENV_VAR || b == ENV_USERVAR || b == ENV_VALUE || b == ENV_ESC {
                    spec_scan_env_name(s, i + 1, EnvScanState::Clear, acc.push(b))
                } else {
                    None
                }
            },
            EnvScanState::AfterIac => {
                if b == IAC {
                    spec_scan_env_name(s, i + 1, EnvScanState::Clear, acc.push(b))
                } else {
                    None
                }
            },
        }
    }
}

/// Scans an environment variable value, as [`spec_scan_env_name`] scans a
/// name. A value ends at an unescaped `VAR` or `USERVAR` tag or at the end
/// of the input; an unescaped `VALUE` tag is malformed here.
pub open spec fn spec_scan_env_value(s: Seq<u8>, i: int, st: EnvScanState, acc: Seq<u8>) -> Option<
    (Seq<u8>, int),
>
    decreases s.len() - i,
{
    if i < 0 || i >= s.len() {
        match st {
            EnvScanState::Clear => Some((acc, s.len() as int)),
            _ => None,
        }
    } else {
        let b = s[i];
        match st {
            EnvScanState::Clear => {
                if b == ENV_ESC {
                    spec_scan_env_value(s, i + 1, EnvScanState::AfterEsc, acc)
                } else if b == ENV_USERVAR || b == ENV_VAR {
                    Some((acc, i))
                } else if b == ENV_VALUE {
                    None
                } else if b == IAC {
                    spec_scan_env_value(s, i + 1, EnvScanState::AfterIac, acc)
                } else {
                    spec_scan_env_value(s, i + 1, EnvScanState::Clear, acc.push(b))
                }
            },
            EnvScanState::AfterEsc => {
                if b == ENV_VAR || b == ENV_USERVAR || b == ENV_VALUE || b == ENV_ESC {
                    spec_scan_env_value(s, i + 1, EnvScanState::Clear, acc.push(b))
                } else {
                    None
                }
            },
            EnvScanState::AfterIac => {
                if b == IAC {
                    spec_scan_env_value(s, i + 1, EnvScanState::Clear, acc.push(b))
                } else {
                    None
                }
            },
        }
    }
}

/// What [`decode_env_name`] yields: the decoded name bytes and the count of
/// input bytes before the terminating tag. Empty input is rejected.
pub open spec fn spec_decode_env_name(s: Seq<u8>) -> Option<(Seq<u8>, int)> {
    if s.len() == 0 {
        None
    } else {
        spec_scan_env_name(s, 0, EnvScanState::Clear, Seq::empty())
    }
}

/// What [`decode_env_value`] yields: the decoded value bytes and the count
/// of input bytes before the terminating tag.
pub open spec fn spec_decode_env_value(s: Seq<u8>) -> Option<(Seq<u8>, int)> {
    spec_scan_env_value(s, 0, EnvScanState::Clear, Seq::empty())
}

/// The position yielded by a name scan lies between the scan start and the
/// end of the input.
pub proof fn lemma_scan_env_name_bounds(s: Seq<u8>, i: int, st: EnvScanState, acc: Seq<u8>)
    requires
        0 <= i <= s.len(),
    ensures
        match spec_scan_env_name(s, i, st, acc) {
            Some(p) => i <= p.1 <= s.len(),
            None => true,
        },
    decreases s.len() - i,
{
    if i < s.len() {
        lemma_scan_env_name_bounds(s, i + 1, EnvScanState::Clear, acc.push(s[i]));
        lemma_scan_env_name_bounds(s, i + 1, EnvScanState::AfterEsc, acc);
        lemma_scan_env_name_bounds(s, i + 1, EnvScanState::AfterIac, acc);
        lemma_scan_env_name_bounds(s, i + 1, EnvScanState::Clear, acc);
    }
}

/// The position yielded by a value scan lies between the scan start and the
/// end of the input.
pub proof fn lemma_scan_env_value_bounds(s: Seq<u8>, i: int, st: EnvScanState, acc: Seq<u8>)
    requires
        0 <= i <= s.len(),
    ensures
        match spec_scan_env_value(s, i, st, acc) {
            Some(p) => i <= p.1 <= s.len(),
            None => true,
        },
    decreases s.len() - i,
{
    if i < s.len() {
        lemma_scan_env_value_bounds(s, i + 1, EnvScanState::Clear, acc.push(s[i]));
        lemma_scan_env_value_bounds(s, i + 1, EnvScanState::AfterEsc, acc);
        lemma_scan_env_value_bounds(s, i + 1, EnvScanState::AfterIac, acc);
        lemma_scan_env_value_bounds(s, i + 1, EnvScanState::Clear, acc);
    }
}

/// Scanning an escaped byte sequence from any starting position and
/// accumulator reads back exactly the original bytes and consumes the whole
/// input, both as a name and as a value.
pub proof fn lemma_scan_escaped(s: Seq<u8>, full: Seq<u8>, i: int, acc: Seq<u8>)
    requires
        0 <= i <= full.len(),
        full.skip(i) == spec_escape_env(s),
    ensures
        spec_scan_env_name(full, i, EnvScanState::Clear, acc) == Some(
            (acc + s, full.len() as int),
        ),
        spec_scan_env_value(full, i, EnvScanState::Clear, acc) == Some(
            (acc + s, full.len() as int),
        ),
    decreases s.len(),
{
    if s.len() == 0 {
        assert(full.skip(i).len() == 0);
        assert(i == full.len());
        assert(acc + s =~= acc);
    } else {
        let b = s[0];
        let head = spec_escape_env_byte(b);
        let tail = spec_escape_env(s.skip(1));
        assert(full.skip(i) == head + tail);
        assert(full.skip(i).len() == head.len() + tail.len());
        if b == ENV_ESC || b == ENV_VAR || b == ENV_VALUE || b == ENV_USERVAR || b == IAC {
            assert(head.len() == 2);
            assert(i + 2 <= full.len());
            assert(full[i] == full.skip(i)[0]);
            assert(full[i + 1] == full.skip(i)[1]);
            assert(full.skip(i + 2) =~= full.skip(i).skip(2));
            assert(full.skip(i).skip(2) =~= tail);
            lemma_scan_escaped(s.skip(1), full, i + 2, acc.push(b));
            assert(acc.push(b) + s.skip(1) =~= acc + s);
            if b == IAC {
                assert(full[i] == IAC && full[i + 1] == IAC);
                assert(spec_scan_env_name(full, i, EnvScanState::Clear, acc)
                    == spec_scan_env_name(full, i + 1, EnvScanState::AfterIac, acc));
                assert(spec_scan_env_name(full, i + 1, EnvScanState::AfterIac, acc)
                    == spec_scan_env_name(full, i + 2, EnvScanState::Clear, acc.push(b)));
                assert(spec_scan_env_value(full, i, EnvScanState::Clear, acc)
                    == spec_scan_env_value(full, i + 1, EnvScanState::AfterIac, acc));
                assert(spec_scan_env_value(full, i + 1, EnvScanState::AfterIac, acc)
                    == spec_scan_env_value(full, i + 2, EnvScanState::Clear, acc.push(b)));
            } else {
                assert(full[i] == ENV_ESC && full[i + 1] == b);
                assert(spec_scan_env_name(full, i, EnvScanState::Clear, acc)
                    == spec_scan_env_name(full, i + 1, EnvScanState::AfterEsc, acc));
                assert(spec_scan_env_name(full, i + 1, EnvScanState::AfterEsc, acc)
                    == spec_scan_env_name(full, i + 2, EnvScanState::Clear, acc.push(b)));
                assert(spec_scan_env_value(full, i, EnvScanState::Clear, acc)
                    == spec_scan_env_value(full, i + 1, EnvScanState::AfterEsc, acc));
                assert(spec_scan_env_value(full, i + 1, EnvScanState::AfterEsc, acc)
                    == spec_scan_env_value(full, i + 2, EnvScanState::Clear, acc.push(b)));
            }
        } else {
            assert(head.len() == 1);
            assert(i + 1 <= full.len());
            assert(full[i] == full.skip(i)[0]);
            assert(full[i] == b);
            assert(full.skip(i + 1) =~= full.skip(i).skip(1));
            assert(full.skip(i).skip(1) =~= tail);
            lemma_scan_escaped(s.skip(1), full, i + 1, acc.push(b));
            assert(acc.push(b) + s.skip(1) =~= acc + s);
            assert(spec_scan_env_name(full, i, EnvScanState::Clear, acc) == spec_scan_env_name(
                full,
                i + 1,
                EnvScanState::Clear,
                acc.push(b),
            ));
            assert(spec_scan_env_value(full, i, EnvScanState::Clear, acc) == spec_scan_env_value(
                full,
                i + 1,
                EnvScanState::Clear,
                acc.push(b),
            ));
        }
    }
}

/// Scanning an escaped byte sequence that sits ahead of a terminating tag
/// (or of the end of the input) reads back the original bytes and stops at
/// the tag. A name ends at `VALUE`, `VAR` or `USERVAR`; a value only at
/// `VAR` or `USERVAR`.
pub proof fn lemma_scan_escaped_prefix(x: Seq<u8>, full: Seq<u8>, i: int, acc: Seq<u8>)
    requires
        0 <= i,
        i + spec_escape_env(x).len() <= full.len(),
        full.subrange(i, i + spec_escape_env(x).len() as int) == spec_escape_env(x),
    ensures
        ({
            let e = i + spec_escape_env(x).len() as int;
            &&& ((e == full.len() || full[e] == ENV_VALUE || full[e] == ENV_VAR || full[e]
                == ENV_USERVAR) ==> spec_scan_env_name(full, i, EnvScanState::Clear, acc) == Some(
                (acc + x, e),
            ))
            &&& ((e == full.len() || full[e] == ENV_VAR || full[e] == ENV_USERVAR)
                ==> spec_scan_env_value(full, i, EnvScanState::Clear, acc) == Some((acc + x, e)))
        }),
    decreases x.len(),
{
    let esc = spec_escape_env(x);
    let e = i + esc.len() as int;
    if x.len() == 0 {
        assert(esc =~= Seq::<u8>::empty());
        assert(acc + x =~= acc);
    } else {
        let b = x[0];
        let head = spec_escape_env_byte(b);
        let tail = spec_escape_env(x.skip(1));
        assert(esc == head + tail);
        assert forall|k: int| 0 <= k < esc.len() implies full[i + k] == esc[k] by {
            assert(full.subrange(i, i + esc.len() as int)[k] == esc[k]);
        }
        assert forall|k: int|
            0 <= k < tail.len() implies full.subrange(
                i + head.len(),
                i + head.len() + tail.len() as int,
            )[k] == tail[k] by {
            assert(esc[head.len() + k] == tail[k]);
            assert(full[i + (head.len() + k)] == esc[head.len() + k]);
        }
        assert(full.subrange(i + head.len(), i + head.len() + tail.len() as int) =~= tail);
        lemma_scan_escaped_prefix(x.skip(1), full, i + head.len(), acc.push(b));
        assert(acc.push(b) + x.skip(1) =~= acc + x);
        if b == ENV_ESC || b == ENV_VAR || b == ENV_VALUE || b == ENV_USERVAR {
            assert(head =~= seq![ENV_ESC, b]);
            assert(esc[0] == ENV_ESC && esc[1] == b);
            assert(full.subrange(i, i + esc.len() as int)[0] == ENV_ESC);
            assert(full.subrange(i, i + esc.len() as int)[1] == b);
            assert(full[i] == ENV_ESC && full[i + 1] == b);
            assert(spec_scan_env_name(full, i, EnvScanState::Clear, acc) == spec_scan_env_name(
                full,
                i + 1,
                EnvScanState::AfterEsc,
                acc,
            ));
            assert(spec_scan_env_name(full, i + 1, EnvScanState::AfterEsc, acc)
                == spec_scan_env_name(full, i + 2, EnvScanState::Clear, acc.push(b)));
            assert(spec_scan_env_value(full, i, EnvScanState::Clear, acc) == spec_scan_env_value(
                full,
                i + 1,
                EnvScanState::AfterEsc,
                acc,
            ));
            assert(spec_scan_env_value(full, i + 1, EnvScanState::AfterEsc, acc)
                == spec_scan_env_value(full, i + 2, EnvScanState::Clear, acc.push(b)));
        } else if b == IAC {
            assert(head =~= seq![IAC, IAC]);
            assert(esc[0] == IAC && esc[1] == IAC);
            assert(full.subrange(i, i + esc.len() as int)[0] == IAC);
            assert(full.subrange(i, i + esc.len() as int)[1] == IAC);
            assert(full[i] == IAC && full[i + 1] == IAC);
            assert(spec_scan_env_name(full, i, EnvScanState::Clear, acc) == spec_scan_env_name(
                full,
                i + 1,
                EnvScanState::AfterIac,
                acc,
            ));
            assert(spec_scan_env_name(full, i + 1, EnvScanState::AfterIac, acc)
                == spec_scan_env_name(full, i + 2, EnvScanState::Clear, acc.push(b)));
            assert(spec_scan_env_value(full, i, EnvScanState::Clear, acc) == spec_scan_env_value(
                full,
                i + 1,
                EnvScanState::AfterIac,
                acc,
            ));
            assert(spec_scan_env_value(full, i + 1, EnvScanState::AfterIac, acc)
                == spec_scan_env_value(full, i + 2, EnvScanState::Clear, acc.push(b)));
        } else {
            assert(head =~= seq![b]);
            assert(esc[0] == b);
            assert(full.subrange(i, i + esc.len() as int)[0] == b);
            assert(full[i] == b);
            assert(spec_scan_env_name(full, i, EnvScanState::Clear, acc) == spec_scan_env_name(
                full,
                i + 1,
                EnvScanState::Clear,
                acc.push(b),
            ));
            assert(spec_scan_env_value(full, i, EnvScanState::Clear, acc) == spec_scan_env_value(
                full,
                i + 1,
                EnvScanState::Clear,
                acc.push(b),
            ));
        }
    }
}

/// The NEW-ENVIRON escape law: decoding an escaped byte sequence, as a name
/// or as a value, yields the original bytes and consumes the whole escaped
/// input. An empty sequence is stated only for values, since an empty name
/// input is rejected.
pub proof fn lemma_env_escape_round_trip(s: Seq<u8>)
    ensures
        s.len() > 0 ==> spec_decode_env_name(spec_escape_env(s)) == Some(
            (s, spec_escape_env(s).len() as int),
        ),
        spec_decode_env_value(spec_escape_env(s)) == Some(
            (s, spec_escape_env(s).len() as int),
        ),
{
    let e = spec_escape_env(s);
    assert(e.skip(0) =~= e);
    lemma_scan_escaped(s, e, 0, Seq::empty());
    assert(Seq::<u8>::empty() + s =~= s);
    if s.len() > 0 {
        assert(spec_escape_env_byte(s[0]).len() >= 1);
        assert(e.len() >= 1);
    }
}

/// Decodes an escaped environment variable name. Yields the name bytes and
/// the count of input bytes read, which stops short of the tag that ended
/// the name; `None` on empty input or a malformed escape.
pub fn decode_env_name(subvec: &[u8]) -> (r: Option<(Vec<u8>, usize)>)
    ensures
        match (r, spec_decode_env_name(subvec@)) {
            (Some(p), Some(q)) => p.0@ == q.0 && p.1 == q.1,
            (None, None) => true,
            _ => false,
        },
{
    if subvec.len() == 0 {
        return None;
    }
    let ghost s = subvec@;
    let mut st = EnvScanState::Clear;
    let mut buf: Vec<u8> = Vec::new();
    let mut i: usize = 0;
    while i < subvec.len()
        invariant
            i <= s.len(),
            subvec@ == s,
            spec_scan_env_name(s, 0, EnvScanState::Clear, Seq::empty()) == spec_scan_env_name(
                s,
                i as int,
                st,
                buf@,
            ),
        decreases s.len() - i,
    {
        let b = subvec[i];
        match st {
            EnvScanState::Clear => {
                if b == ENV_ESC {
                    st = EnvScanState::AfterEsc;
                } else if b == ENV_VALUE || b == ENV_USERVAR || b == ENV_VAR {
                    return Some((buf, i));
                } else if b == IAC {
                    st = EnvScanState::AfterIac;
                } else {
                    buf.push(b);
                }
            },
            EnvScanState::AfterEsc => {
                if b == ENV_VAR || b == ENV_USERVAR || b == ENV_VALUE || b == ENV_ESC {
                    buf.push(b);
                    st = EnvScanState::Clear;
                } else {
                    return None;
                }
            },
            EnvScanState::AfterIac => {
                if b == IAC {
                    buf.push(b);
                    st = EnvScanState::Clear;
                } else {
                    return None;
                }
            },
        }
        i = i + 1;
    }
    match st {
        EnvScanState::Clear => Some((buf, subvec.len())),
        _ => None,
    }
}

/// Decodes an escaped environment variable value. Yields the value bytes
/// and the count of input bytes read, which stops short of the tag that
/// ended the value; `None` on a malformed escape or an unescaped `VALUE`
/// tag.
pub fn decode_env_value(subvec: &[u8]) -> (r: Option<(Vec<u8>, usize)>)
    ensures
        match (r, spec_decode_env_value(subvec@)) {
            (Some(p), Some(q)) => p.0@ == q.0 && p.1 == q.1,
            (None, None) => true,
            _ => false,
        },
{
    let ghost s = subvec@;
    let mut st = EnvScanState::Clear;
    let mut buf: Vec<u8> = Vec::new();
    let mut i: usize = 0;
    while i < subvec.len()
        invariant
            i <= s.len(),
            subvec@ == s,
            spec_scan_env_value(s, 0, EnvScanState::Clear, Seq::empty()) == spec_scan_env_value(
                s,
                i as int,
                st,
                buf@,
            ),
        decreases s.len() - i,
    {
        let b = subvec[i];
        match st {
            EnvScanState::Clear => {
                if b == ENV_ESC {
                    st = EnvScanState::AfterEsc;
                } else if b == ENV_USERVAR || b == ENV_VAR {
                    return Some((buf, i));
                } else if b == ENV_VALUE {
                    return None;
                } else if b == IAC {
                    st = EnvScanState::AfterIac;
                } else {
                    buf.push(b);
                }
            },
            EnvScanState::AfterEsc => {
                if b == ENV_VAR || b == ENV_USERVAR || b == ENV_VALUE || b == ENV_ESC {
                    buf.push(b);
                    st = EnvScanState::Clear;
                } else {
                    return None;
                }
            },
            EnvScanState::AfterIac => {
                if b == IAC {
                    buf.push(b);
                    st = EnvScanState::Clear;
                } else {
                    return None;
                }
            },
        }
        i = i + 1;
    }
    match st {
        EnvScanState::Clear => Some((buf, subvec.len())),
        _ => None,
    }
}

/// What [`decode_env_var`] yields: the variable name as characters, its
/// optional value bytes, and the count of input bytes read. A variable is a
/// non-empty UTF-8 name followed, optionally, by a `VALUE` tag and value
/// bytes.
pub open spec fn spec_decode_env_var(s: Seq<u8>) -> Option<(Seq<char>, Option<Seq<u8>>, int)> {
    match spec_decode_env_name(s) {
        None => None,
        Some(nr) => {
            if nr.0.len() == 0 {
                None
            } else if !valid_utf8(nr.0) {
                None
            } else {
                let name = decode_utf8(nr.0);
                if nr.1 < s.len() && s[nr.1] == ENV_VALUE {
                    match spec_decode_env_value(s.skip(nr.1 + 1)) {
                        None => None,
                        Some(vr) => Some((name, Some(vr.0), nr.1 + 1 + vr.1)),
                    }
                } else {
                    Some((name, None, nr.1))
                }
            }
        },
    }
}

/// The count of input bytes read by a variable decode lies within the
/// input.
pub proof fn lemma_decode_env_var_bounds(s: Seq<u8>)
    ensures
        match spec_decode_env_var(s) {
            Some(p) => 0 <= p.2 <= s.len(),
            None => true,
        },
{
    if s.len() > 0 {
        lemma_scan_env_name_bounds(s, 0, EnvScanState::Clear, Seq::empty());
        match spec_decode_env_name(s) {
            Some(nr) => {
                if nr.1 < s.len() && s[nr.1] == ENV_VALUE {
                    lemma_scan_env_value_bounds(
                        s.skip(nr.1 + 1),
                        0,
                        EnvScanState::Clear,
                        Seq::empty(),
                    );
                }
            },
            None => {},
        }
    }
}

/// Decodes one environment variable: a non-empty escaped UTF-8 name, then
/// optionally a `VALUE` tag and an escaped value. Yields the name, the
/// value, and the count of input bytes read.
pub fn decode_env_var(subvec: &[u8]) -> (r: Option<(String, Option<Vec<u8>>, usize)>)
    ensures
        match (r, spec_decode_env_var(subvec@)) {
            (Some(p), Some(q)) => p.0@ == q.0 && (match (p.1, q.1) {
                (Some(v), Some(w)) => v@ == w,
                (None, None) => true,
                _ => false,
            }) && p.2 == q.2,
            (None, None) => true,
            _ => false,
        },
{
    let nr = decode_env_name(subvec);
    let (raw_name, name_size) = match nr {
        Some(p) => p,
        None => {
            return None;
        },
    };
    proof {
        lemma_scan_env_name_bounds(subvec@, 0, EnvScanState::Clear, Seq::empty());
    }
    if raw_name.len() == 0 {
        return None;
    }
    let mut size = name_size;
    let mut value: Option<Vec<u8>> = None;
    if size < subvec.len() && subvec[size] == ENV_VALUE {
        let rest = vstd::slice::slice_subrange(subvec, size + 1, subvec.len());
        proof {
            lemma_scan_env_value_bounds(rest@, 0, EnvScanState::Clear, Seq::empty());
        }
        match decode_env_value(rest) {
            None => {
                return None;
            },
            Some(vr) => {
                value = Some(vr.0);
                size = size + 1 + vr.1;
            },
        }
    }
    match crate::text::string_from_utf8(raw_name) {
        None => None,
        Some(name) => Some((name, value, size)),
    }
}

/// What [`decode_env_is`] yields for an `IS` or `INFO` payload: the list of
/// variables, each a tagged kind with an optional value. A `VAR` tag names
/// a well-known variable; a `USERVAR` tag names a user-defined one.
pub open spec fn spec_decode_env_is(s: Seq<u8>) -> Option<
    Seq<(EnvironmentKindView, Option<Seq<u8>>)>,
>
    decreases s.len() via spec_decode_env_is_decreases
{
    if s.len() == 0 {
        Some(Seq::empty())
    } else if s[0] == ENV_USERVAR || s[0] == ENV_VAR {
        match spec_decode_env_var(s.skip(1)) {
            None => None,
            Some(p) => {
                let kind = if s[0] == ENV_USERVAR {
                    EnvironmentKindView::UserDefined(Some(p.0))
                } else {
                    EnvironmentKindView::WellKnown(
                        Some(WellKnownVariableView::spec_from_name(p.0)),
                    )
                };
                match spec_decode_env_is(s.skip(1 + p.2)) {
                    None => None,
                    Some(rest) => Some(seq![(kind, p.1)] + rest),
                }
            },
        }
    } else {
        None
    }
}

#[via_fn]
proof fn spec_decode_env_is_decreases(s: Seq<u8>) {
    if s.len() != 0 && (s[0] == ENV_USERVAR || s[0] == ENV_VAR) {
        lemma_decode_env_var_bounds(s.skip(1));
    }
}

/// Decodes the variable list of an `IS` or `INFO` payload.
pub fn decode_env_is(subvec: &[u8]) -> (r: Option<Vec<(EnvironmentKind, Option<Vec<u8>>)>>)
    ensures
        match (r, spec_decode_env_is(subvec@)) {
            (Some(v), Some(q)) => env_entries_view(v@) == q,
            (None, None) => true,
            _ => false,
        },
{
    let ghost s = subvec@;
    let mut buf: Vec<(EnvironmentKind, Option<Vec<u8>>)> = Vec::new();
    let mut index: usize = 0;
    proof {
        assert(s.skip(0) =~= s);
        assert(env_entries_view(buf@) =~= Seq::empty());
    }
    while index < subvec.len()
        invariant
            index <= s.len(),
            subvec@ == s,
            match spec_decode_env_is(s.skip(index as int)) {
                Some(rest) => spec_decode_env_is(s) == Some(env_entries_view(buf@) + rest),
                None => spec_decode_env_is(s) is None,
            },
        decreases s.len() - index,
    {
        let tag = subvec[index];
        if tag != ENV_USERVAR && tag != ENV_VAR {
            proof {
                assert(s.skip(index as int)[0] == s[index as int]);
            }
            return None;
        }
        let rest = vstd::slice::slice_subrange(subvec, index + 1, subvec.len());
        proof {
            assert(rest@ =~= s.skip(index as int).skip(1));
            assert(s.skip(index as int).skip(1) =~= s.skip(index + 1));
            lemma_decode_env_var_bounds(rest@);
        }
        match decode_env_var(rest) {
            None => {
                return None;
            },
            Some((name, value, size)) => {
                let kind = if tag == ENV_USERVAR {
                    EnvironmentKind::UserDefined(Some(name))
                } else {
                    EnvironmentKind::WellKnown(Some(WellKnownVariable::from_name(name.as_str())))
                };
                let ghost prev = buf@;
                let ghost entry_view = (kind@, match value {
                    Some(ref v) => Some(v@),
                    None => None,
                });
                buf.push((kind, value));
                proof {
                    assert(env_entries_view(buf@) =~= env_entries_view(prev) + seq![entry_view]);
                    assert(s.skip(index as int).skip(1 + size) =~= s.skip(index + 1 + size));
                }
                index = index + 1 + size;
            },
        }
    }
    proof {
        assert(s.skip(index as int) =~= Seq::<u8>::empty());
    }
    Some(buf)
}

/// The first position at or after `i` holding a `VAR` or `USERVAR` tag, or
/// the end of the input: inside a `SEND` payload, names run until the next
/// tag.
pub open spec fn spec_send_name_end(s: Seq<u8>, i: int) -> int
    decreases s.len() - i,
{
    if i < 0 || i >= s.len() {
        s.len() as int
    } else if s[i] == ENV_VAR || s[i] == ENV_USERVAR {
        i
    } else {
        spec_send_name_end(s, i + 1)
    }
}

/// The position yielded by [`spec_send_name_end`] lies between the scan
/// start and the end of the input, and no tag occurs before it.
pub proof fn lemma_send_name_end_bounds(s: Seq<u8>, i: int)
    requires
        0 <= i <= s.len(),
    ensures
        i <= spec_send_name_end(s, i) <= s.len(),
    decreases s.len() - i,
{
    if i < s.len() && s[i] != ENV_VAR && s[i] != ENV_USERVAR {
        lemma_send_name_end_bounds(s, i + 1);
    }
}

/// What [`decode_env_send_var`] yields: the kind named by a `SEND` tag byte
/// and the raw name bytes that follow it. An empty name is a wildcard; a
/// non-UTF-8 name or an unknown tag is malformed.
pub open spec fn spec_decode_env_send_var(kind: u8, name: Seq<u8>) -> Option<EnvironmentKindView> {
    if kind == ENV_VAR {
        if name.len() == 0 {
            Some(EnvironmentKindView::WellKnown(None))
        } else if valid_utf8(name) {
            Some(
                EnvironmentKindView::WellKnown(
                    Some(WellKnownVariableView::spec_from_name(decode_utf8(name))),
                ),
            )
        } else {
            None
        }
    } else if kind == ENV_USERVAR {
        if name.len() == 0 {
            Some(EnvironmentKindView::UserDefined(None))
        } else if valid_utf8(name) {
            Some(EnvironmentKindView::UserDefined(Some(decode_utf8(name))))
        } else {
            None
        }
    } else {
        None
    }
}

/// Decodes one `SEND` request: a tag byte and the raw name bytes after it.
/// A `VAR` tag names a well-known variable, a `USERVAR` tag a user-defined
/// one, and an empty name is a wildcard.
pub fn decode_env_send_var(kind: u8, name: &[u8]) -> (r: Option<EnvironmentKind>)
    ensures
        match (r, spec_decode_env_send_var(kind, name@)) {
            (Some(k), Some(q)) => k@ == q,
            (None, None) => true,
            _ => false,
        },
{
    if kind != ENV_VAR && kind != ENV_USERVAR {
        return None;
    }
    let inner: Option<String> = if name.len() == 0 {
        None
    } else {
        match crate::text::string_from_utf8(vstd::slice::slice_to_vec(name)) {
            None => {
                return None;
            },
            Some(s) => Some(s),
        }
    };
    if kind == ENV_VAR {
        match inner {
            None => Some(EnvironmentKind::WellKnown(None)),
            Some(n) => Some(
                EnvironmentKind::WellKnown(Some(WellKnownVariable::from_name(n.as_str()))),
            ),
        }
    } else {
        match inner {
            None => Some(EnvironmentKind::UserDefined(None)),
            Some(n) => Some(EnvironmentKind::UserDefined(Some(n))),
        }
    }
}

/// What [`decode_env_send`] yields for a `SEND` payload: the requested
/// kinds, in order. Each request is a `VAR` or `USERVAR` tag followed by a
/// possibly empty raw name; a payload not starting with a tag is malformed.
pub open spec fn spec_decode_env_send(s: Seq<u8>) -> Option<Seq<EnvironmentKindView>>
    decreases s.len() via spec_decode_env_send_decreases
{
    if s.len() == 0 {
        Some(Seq::empty())
    } else if s[0] == ENV_VAR || s[0] == ENV_USERVAR {
        let j = spec_send_name_end(s, 1);
        match spec_decode_env_send_var(s[0], s.subrange(1, j)) {
            None => None,
            Some(kind) => match spec_decode_env_send(s.skip(j)) {
                None => None,
                Some(rest) => Some(seq![kind] + rest),
            },
        }
    } else {
        None
    }
}

#[via_fn]
proof fn spec_decode_env_send_decreases(s: Seq<u8>) {
    if s.len() != 0 && (s[0] == ENV_VAR || s[0] == ENV_USERVAR) {
        lemma_send_name_end_bounds(s, 1);
    }
}

/// Decodes the request list of a `SEND` payload.
pub fn decode_env_send(subvec: &[u8]) -> (r: Option<Vec<EnvironmentKind>>)
    ensures
        match (r, spec_decode_env_send(subvec@)) {
            (Some(v), Some(q)) => env_kinds_view(v@) == q,
            (None, None) => true,
            _ => false,
        },
{
    let ghost s = subvec@;
    let mut buf: Vec<EnvironmentKind> = Vec::new();
    let mut index: usize = 0;
    proof {
        assert(s.skip(0) =~= s);
        assert(env_kinds_view(buf@) =~= Seq::empty());
    }
    while index < subvec.len()
        invariant
            index <= s.len(),
            subvec@ == s,
            match spec_decode_env_send(s.skip(index as int)) {
                Some(rest) => spec_decode_env_send(s) == Some(env_kinds_view(buf@) + rest),
                None => spec_decode_env_send(s) is None,
            },
        decreases s.len() - index,
    {
        let tag = subvec[index];
        proof {
            assert(s.skip(index as int)[0] == s[index as int]);
        }
        if tag != ENV_VAR && tag != ENV_USERVAR {
            return None;
        }
        let mut j: usize = index + 1;
        while j < subvec.len() && subvec[j] != ENV_VAR && subvec[j] != ENV_USERVAR
            invariant
                index + 1 <= j <= s.len(),
                subvec@ == s,
                spec_send_name_end(s, index + 1) == spec_send_name_end(s, j as int),
            decreases s.len() - j,
        {
            j = j + 1;
        }
        proof {
            assert(spec_send_name_end(s, j as int) == j);
            assert(spec_send_name_end(s.skip(index as int), 1) == spec_send_name_end(s, index + 1)
                - index) by {
                lemma_send_name_end_shift(s, index as int, 1);
            }
        }
        let name = vstd::slice::slice_subrange(subvec, index + 1, j);
        proof {
            assert(name@ =~= s.skip(index as int).subrange(1, j - index));
        }
        match decode_env_send_var(tag, name) {
            None => {
                return None;
            },
            Some(kind) => {
                let ghost prev = buf@;
                let ghost kind_view = kind@;
                buf.push(kind);
                proof {
                    assert(env_kinds_view(buf@) =~= env_kinds_view(prev) + seq![kind_view]);
                    assert(s.skip(index as int).skip(j - index) =~= s.skip(j as int));
                }
                index = j;
            },
        }
    }
    proof {
        assert(s.skip(index as int) =~= Seq::<u8>::empty());
    }
    Some(buf)
}

/// Shifting the start of the input shifts the position of the next tag by
/// the same amount.
pub proof fn lemma_send_name_end_shift(s: Seq<u8>, base: int, i: int)
    requires
        0 <= base,
        0 <= i,
        base + i <= s.len(),
    ensures
        spec_send_name_end(s.skip(base), i) == spec_send_name_end(s, base + i) - base,
    decreases s.len() - base - i,
{
    if base + i < s.len() {
        assert(s.skip(base)[i] == s[base + i]);
        if s[base + i] != ENV_VAR && s[base + i] != ENV_USERVAR {
            lemma_send_name_end_shift(s, base, i + 1);
        }
    }
}

/// What [`decode_env`] yields for a whole NEW-ENVIRON payload: the
/// operation named by the first byte, with its decoded variables. An
/// unrecognized operation byte keeps its payload verbatim; an empty payload
/// is malformed.
pub open spec fn spec_decode_env(s: Seq<u8>) -> Option<EnvironmentOperationView> {
    if s.len() == 0 {
        None
    } else {
        let op = s[0];
        let rest = s.skip(1);
        if op == ENV_IS {
            match spec_decode_env_is(rest) {
                Some(vars) => Some(EnvironmentOperationView::Is(vars)),
                None => None,
            }
        } else if op == ENV_SEND {
            match spec_decode_env_send(rest) {
                Some(kinds) => Some(EnvironmentOperationView::Send(kinds)),
                None => None,
            }
        } else if op == ENV_INFO {
            match spec_decode_env_is(rest) {
                Some(vars) => Some(EnvironmentOperationView::Info(vars)),
                None => None,
            }
        } else {
            Some(EnvironmentOperationView::Unknown(op, rest))
        }
    }
}

/// Decodes a whole NEW-ENVIRON payload into a subnegotiation event.
pub fn decode_env(subvec: &[u8]) -> (r: Option<crate::event::TelnetEvent>)
    ensures
        match (r, spec_decode_env(subvec@)) {
            (Some(ev), Some(opv)) => ev@ == crate::event::TelnetEventView::Subnegotiate(
                crate::subnegotiation::SubnegotiationView::Environment(opv),
            ),
            (None, None) => true,
            _ => false,
        },
{
    if subvec.len() == 0 {
        return None;
    }
    let op = subvec[0];
    let rest = vstd::slice::slice_subrange(subvec, 1, subvec.len());
    proof {
        assert(rest@ =~= subvec@.skip(1));
    }
    let operation: EnvironmentOperation = if op == ENV_IS {
        match decode_env_is(rest) {
            Some(vars) => EnvironmentOperation::Is(vars),
            None => {
                return None;
            },
        }
    } else if op == ENV_SEND {
        match decode_env_send(rest) {
            Some(kinds) => EnvironmentOperation::Send(kinds),
            None => {
                return None;
            },
        }
    } else if op == ENV_INFO {
        match decode_env_is(rest) {
            Some(vars) => EnvironmentOperation::Info(vars),
            None => {
                return None;
            },
        }
    } else {
        EnvironmentOperation::Unknown(op, vstd::slice::slice_to_vec(rest))
    };
    Some(
        crate::event::TelnetEvent::Subnegotiate(
            crate::subnegotiation::SubnegotiationType::Environment(operation),
        ),
    )
}

/// The wire bytes of one `Is`/`Info` entry: its tag byte, the escaped
/// UTF-8 name, and, if a value is present, a `VALUE` tag and the escaped
/// value. A wildcard entry has no name and produces nothing.
pub open spec fn spec_env_var_bytes(e: (EnvironmentKindView, Option<Seq<u8>>)) -> Seq<u8> {
    match e.0.name_view() {
        None => Seq::empty(),
        Some(name) => seq![e.0.spec_byte()] + spec_escape_env(encode_utf8(name)) + (match e.1 {
            Some(v) => seq![ENV_VALUE] + spec_escape_env(v),
            None => Seq::empty(),
        }),
    }
}

/// The wire bytes of an `Is`/`Info` entry list.
pub open spec fn spec_env_vars_bytes(vars: Seq<(EnvironmentKindView, Option<Seq<u8>>)>) -> Seq<u8>
    decreases vars.len(),
{
    if vars.len() == 0 {
        Seq::empty()
    } else {
        spec_env_var_bytes(vars[0]) + spec_env_vars_bytes(vars.skip(1))
    }
}

/// The wire bytes of one `Send` request: its tag byte and the raw UTF-8
/// name. A wildcard emits its tag byte alone, requesting every variable of
/// its kind.
pub open spec fn spec_env_send_kind_bytes(k: EnvironmentKindView) -> Seq<u8> {
    match k.name_view() {
        None => seq![k.spec_byte()],
        Some(name) => seq![k.spec_byte()] + encode_utf8(name),
    }
}

/// The wire bytes of a `Send` request list.
pub open spec fn spec_env_send_bytes(ks: Seq<EnvironmentKindView>) -> Seq<u8>
    decreases ks.len(),
{
    if ks.len() == 0 {
        Seq::empty()
    } else {
        spec_env_send_kind_bytes(ks[0]) + spec_env_send_bytes(ks.skip(1))
    }
}

/// The wire bytes of a NEW-ENVIRON operation: its operation byte and its
/// payload.
pub open spec fn spec_env_op_bytes(op: EnvironmentOperationView) -> Seq<u8> {
    match op {
        EnvironmentOperationView::Is(vars) => seq![ENV_IS] + spec_env_vars_bytes(vars),
        EnvironmentOperationView::Send(ks) => seq![ENV_SEND] + spec_env_send_bytes(ks),
        EnvironmentOperationView::Info(vars) => seq![ENV_INFO] + spec_env_vars_bytes(vars),
        EnvironmentOperationView::Unknown(b, data) => seq![b] + data,
    }
}

/// Entry encoding distributes over concatenation of entry lists.
pub proof fn lemma_env_vars_bytes_append(
    a: Seq<(EnvironmentKindView, Option<Seq<u8>>)>,
    b: Seq<(EnvironmentKindView, Option<Seq<u8>>)>,
)
    ensures
        spec_env_vars_bytes(a + b) == spec_env_vars_bytes(a) + spec_env_vars_bytes(b),
    decreases a.len(),
{
    if a.len() == 0 {
        assert(a + b =~= b);
        assert(spec_env_vars_bytes(a) + spec_env_vars_bytes(b) =~= spec_env_vars_bytes(b));
    } else {
        lemma_env_vars_bytes_append(a.skip(1), b);
        assert((a + b).skip(1) =~= a.skip(1) + b);
        assert((a + b)[0] == a[0]);
        assert(spec_env_vars_bytes(a + b) =~= spec_env_vars_bytes(a) + spec_env_vars_bytes(b));
    }
}

/// Request encoding distributes over concatenation of request lists.
pub proof fn lemma_env_send_bytes_append(a: Seq<EnvironmentKindView>, b: Seq<EnvironmentKindView>)
    ensures
        spec_env_send_bytes(a + b) == spec_env_send_bytes(a) + spec_env_send_bytes(b),
    decreases a.len(),
{
    if a.len() == 0 {
        assert(a + b =~= b);
        assert(spec_env_send_bytes(a) + spec_env_send_bytes(b) =~= spec_env_send_bytes(b));
    } else {
        lemma_env_send_bytes_append(a.skip(1), b);
        assert((a + b).skip(1) =~= a.skip(1) + b);
        assert((a + b)[0] == a[0]);
        assert(spec_env_send_bytes(a + b) =~= spec_env_send_bytes(a) + spec_env_send_bytes(b));
    }
}

/// Appends the wire bytes of an `Is`/`Info` entry list to `out`.
pub fn write_env_vars(vars: &Vec<(EnvironmentKind, Option<Vec<u8>>)>, out: &mut Vec<u8>)
    ensures
        final(out)@ == old(out)@ + spec_env_vars_bytes(env_entries_view(vars@)),
{
    let ghost base = out@;
    let mut i: usize = 0;
    proof {
        assert(env_entries_view(vars@).take(0) =~= Seq::empty());
        assert(base + Seq::<u8>::empty() =~= base);
    }
    while i < vars.len()
        invariant
            i <= vars@.len(),
            out@ == base + spec_env_vars_bytes(env_entries_view(vars@).take(i as int)),
        decreases vars@.len() - i,
    {
        let ghost entries = env_entries_view(vars@);
        let (kind, value) = &vars[i];
        match kind.name() {
            None => {
                proof {
                    assert(entries[i as int] == env_entry_view(vars@[i as int]));
                    assert(spec_env_var_bytes(entries[i as int]) =~= Seq::<u8>::empty());
                    assert(entries.take(i + 1) =~= entries.take(i as int) + seq![
                        entries[i as int],
                    ]);
                    lemma_env_vars_bytes_append(entries.take(i as int), seq![entries[i as int]]);
                    assert(seq![entries[i as int]].skip(1) =~= Seq::<
                        (EnvironmentKindView, Option<Seq<u8>>),
                    >::empty());
                    assert(spec_env_vars_bytes(
                        Seq::<(EnvironmentKindView, Option<Seq<u8>>)>::empty(),
                    ) =~= Seq::<u8>::empty());
                    assert(spec_env_vars_bytes(seq![entries[i as int]]) =~= spec_env_var_bytes(
                        entries[i as int],
                    ));
                    assert(out@ =~= base + spec_env_vars_bytes(entries.take(i + 1)));
                }
            },
            Some(name) => {
                out.push(kind.as_u8());
                let encoded_name = encode_bytes(name.as_str().as_bytes());
                out.extend_from_slice(encoded_name.as_slice());
                match value {
                    Some(v) => {
                        out.push(ENV_VALUE);
                        let encoded_value = encode_bytes(v.as_slice());
                        out.extend_from_slice(encoded_value.as_slice());
                    },
                    None => {},
                }
                proof {
                    assert(entries[i as int] == env_entry_view(vars@[i as int]));
                    assert(entries.take(i + 1) =~= entries.take(i as int) + seq![
                        entries[i as int],
                    ]);
                    lemma_env_vars_bytes_append(entries.take(i as int), seq![entries[i as int]]);
                    assert(seq![entries[i as int]].skip(1) =~= Seq::<
                        (EnvironmentKindView, Option<Seq<u8>>),
                    >::empty());
                    assert(spec_env_vars_bytes(
                        Seq::<(EnvironmentKindView, Option<Seq<u8>>)>::empty(),
                    ) =~= Seq::<u8>::empty());
                    assert(spec_env_vars_bytes(seq![entries[i as int]]) =~= spec_env_var_bytes(
                        entries[i as int],
                    ));
                    assert(out@ =~= base + spec_env_vars_bytes(entries.take(i + 1)));
                }
            },
        }
        i = i + 1;
    }
    proof {
        assert(env_entries_view(vars@).take(vars@.len() as int) =~= env_entries_view(vars@));
    }
}

/// Appends the wire bytes of a `Send` request list to `out`.
pub fn write_env_send(kinds: &Vec<EnvironmentKind>, out: &mut Vec<u8>)
    ensures
        final(out)@ == old(out)@ + spec_env_send_bytes(env_kinds_view(kinds@)),
{
    let ghost base = out@;
    let mut i: usize = 0;
    proof {
        assert(env_kinds_view(kinds@).take(0) =~= Seq::empty());
        assert(base + Seq::<u8>::empty() =~= base);
    }
    while i < kinds.len()
        invariant
            i <= kinds@.len(),
            out@ == base + spec_env_send_bytes(env_kinds_view(kinds@).take(i as int)),
        decreases kinds@.len() - i,
    {
        let ghost ks = env_kinds_view(kinds@);
        let kind = &kinds[i];
        match kind.name() {
            None => {
                out.push(kind.as_u8());
            },
            Some(name) => {
                out.push(kind.as_u8());
                out.extend_from_slice(name.as_str().as_bytes());
            },
        }
        proof {
            assert(ks[i as int] == kinds@[i as int]@);
            assert(ks.take(i + 1) =~= ks.take(i as int) + seq![ks[i as int]]);
            lemma_env_send_bytes_append(ks.take(i as int), seq![ks[i as int]]);
            assert(seq![ks[i as int]].skip(1) =~= Seq::<EnvironmentKindView>::empty());
            assert(spec_env_send_bytes(Seq::<EnvironmentKindView>::empty()) =~= Seq::<
                u8,
            >::empty());
            assert(spec_env_send_bytes(seq![ks[i as int]]) =~= spec_env_send_kind_bytes(
                ks[i as int],
            ));
            assert(out@ =~= base + spec_env_send_bytes(ks.take(i + 1)));
        }
        i = i + 1;
    }
    proof {
        assert(env_kinds_view(kinds@).take(kinds@.len() as int) =~= env_kinds_view(kinds@));
    }
}

/// Appends the wire bytes of a NEW-ENVIRON operation to `out`: the
/// operation byte and its payload.
pub fn write_env_op(op: &EnvironmentOperation, out: &mut Vec<u8>)
    ensures
        final(out)@ == old(out)@ + spec_env_op_bytes(op@),
{
    match op {
        EnvironmentOperation::Is(vars) => {
            out.push(ENV_IS);
            write_env_vars(vars, out);
        },
        EnvironmentOperation::Send(kinds) => {
            out.push(ENV_SEND);
            write_env_send(kinds, out);
        },
        EnvironmentOperation::Info(vars) => {
            out.push(ENV_INFO);
            write_env_vars(vars, out);
        },
        EnvironmentOperation::Unknown(b, data) => {
            out.push(*b);
            out.extend_from_slice(data.as_slice());
        },
    }
    proof {
        assert(out@ =~= old(out)@ + spec_env_op_bytes(op@));
    }
}

/// Appends the wire bytes of an `Is`/`Info` entry list to the output
/// buffer.
pub fn encode_env_vars(
    vars: Vec<(EnvironmentKind, Option<Vec<u8>>)>,
    buffer: &mut bytes::BytesMut,
)
    ensures
        crate::transport::contents(*final(buffer)) == crate::transport::contents(*old(buffer))
            + spec_env_vars_bytes(env_entries_view(vars@)),
{
    let mut out: Vec<u8> = Vec::new();
    write_env_vars(&vars, &mut out);
    crate::transport::buf_extend(buffer, out.as_slice());
    proof {
        assert(crate::transport::contents(*buffer) =~= crate::transport::contents(*old(buffer))
            + spec_env_vars_bytes(env_entries_view(vars@)));
    }
}

/// Appends the wire bytes of a NEW-ENVIRON operation to the output buffer.
pub fn encode_env_op(op: EnvironmentOperation, buffer: &mut bytes::BytesMut)
    ensures
        crate::transport::contents(*final(buffer)) == crate::transport::contents(*old(buffer))
            + spec_env_op_bytes(op@),
{
    let mut out: Vec<u8> = Vec::new();
    write_env_op(&op, &mut out);
    crate::transport::buf_extend(buffer, out.as_slice());
    proof {
        assert(crate::transport::contents(*buffer) =~= crate::transport::contents(*old(buffer))
            + spec_env_op_bytes(op@));
    }
}

/// Escapes a byte sequence for inclusion in a NEW-ENVIRON payload.
pub fn encode_bytes(buf: &[u8]) -> (r: Vec<u8>)
    ensures
        r@ == spec_escape_env(buf@),
{
    let mut out: Vec<u8> = Vec::new();
    let mut i: usize = 0;
    while i < buf.len()
        invariant
            i <= buf@.len(),
            out@ == spec_escape_env(buf@.take(i as int)),
        decreases buf@.len() - i,
    {
        let b = buf[i];
        if b == ENV_ESC || b == ENV_VAR || b == ENV_VALUE || b == ENV_USERVAR {
            out.push(ENV_ESC);
            out.push(b);
        } else if b == IAC {
            out.push(IAC);
            out.push(IAC);
        } else {
            out.push(b);
        }
        proof {
            assert(buf@.take(i + 1) =~= buf@.take(i as int) + seq![buf@[i as int]]);
            lemma_escape_env_append(buf@.take(i as int), seq![buf@[i as int]]);
            assert(seq![buf@[i as int]].skip(1) =~= Seq::<u8>::empty());
            assert(spec_escape_env(Seq::<u8>::empty()) =~= Seq::<u8>::empty());
            assert(spec_escape_env(seq![buf@[i as int]]) =~= spec_escape_env_byte(buf@[i as int]));
        }
        i = i + 1;
    }
    proof {
        assert(buf@.take(buf@.len() as int) =~= buf@);
    }
    out
}

} // verus!
