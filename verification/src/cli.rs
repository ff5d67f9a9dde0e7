//! Decision logic of the interactive shell.
//!
//! Each input line is read as either a raw server command or, behind a `!`
//! prefix, one of a handful of builtins. The parsing works on the line's
//! bytes: every marker involved — the prefix, the builtin names, the
//! whitespace that is trimmed — is ASCII, so byte positions cannot split a
//! character.

use vstd::prelude::*;
use vstd::utf8::encode_utf8;

use crate::message::bytes_match_at;
use crate::message::AuthError;

verus! {

/// The byte that introduces a builtin.
pub const BUILTIN_PREFIX: u8 = 0x21;

/// ASCII whitespace, as trimmed from input lines and arguments.
pub open spec fn is_ws(b: u8) -> bool {
    b == 0x20 || b == 0x09 || b == 0x0A || b == 0x0D
}

/// `s` without leading and trailing ASCII whitespace.
pub open spec fn trim_model(s: Seq<u8>) -> Seq<u8>
    decreases s.len(),
{
    if s.len() > 0 && is_ws(s[0]) {
        trim_model(s.skip(1))
    } else if s.len() > 0 && is_ws(s[s.len() - 1]) {
        trim_model(s.take(s.len() - 1))
    } else {
        s
    }
}

/// The position of the first ASCII space at or after `from`, if any.
pub open spec fn find_space(s: Seq<u8>, from: int) -> Option<int>
    decreases s.len() - from,
{
    if from >= s.len() {
        None
    } else if s[from] == 0x20 {
        Some(from)
    } else {
        find_space(s, from + 1)
    }
}

/// What one input line asks for.
#[derive(Debug, PartialEq)]
pub enum ReplAction {
    /// Send the line as a raw command.
    Exec(Vec<u8>),
    /// Set a server variable to a value.
    SetValue(Vec<u8>, Vec<u8>),
    /// Ask the server to start streaming console logs.
    EnableConsoleLogs,
    /// Print the builtin listing.
    ShowHelp,
    /// Leave the shell.
    Quit,
    /// A `!set` without both arguments: print its usage line.
    SetUsage,
    /// An unknown builtin: print a complaint.
    UnknownBuiltin,
}

/// The mathematical shape of a parsed line.
pub enum ReplModel {
    Exec(Seq<u8>),
    SetValue(Seq<u8>, Seq<u8>),
    EnableConsoleLogs,
    ShowHelp,
    Quit,
    SetUsage,
    UnknownBuiltin,
}

impl View for ReplAction {
    type V = ReplModel;

    open spec fn view(&self) -> ReplModel {
        match self {
            ReplAction::Exec(c) => ReplModel::Exec(c@),
            ReplAction::SetValue(var, val) => ReplModel::SetValue(var@, val@),
            ReplAction::EnableConsoleLogs => ReplModel::EnableConsoleLogs,
            ReplAction::ShowHelp => ReplModel::ShowHelp,
            ReplAction::Quit => ReplModel::Quit,
            ReplAction::SetUsage => ReplModel::SetUsage,
            ReplAction::UnknownBuiltin => ReplModel::UnknownBuiltin,
        }
    }
}

/// How one input line is read: trim it; without the builtin prefix it is a
/// raw command (an empty line included); with it, match the builtins, and
/// split a `!set` body at its first space into a trimmed name and value.
pub open spec fn repl_model(line: Seq<u8>) -> ReplModel {
    let t = trim_model(line);
    if t.len() == 0 || t[0] != BUILTIN_PREFIX {
        ReplModel::Exec(t)
    } else {
        let b = t.skip(1);
        if b == encode_utf8("help"@) {
            ReplModel::ShowHelp
        } else if b == encode_utf8("quit"@) {
            ReplModel::Quit
        } else if b == encode_utf8("enable console"@) {
            ReplModel::EnableConsoleLogs
        } else if b.len() >= encode_utf8("set "@).len() && b.subrange(
            0,
            encode_utf8("set "@).len() as int,
        ) == encode_utf8("set "@) {
            let q = b.skip(encode_utf8("set "@).len() as int);
            match find_space(q, 0) {
                Some(i) => ReplModel::SetValue(
                    trim_model(q.take(i)),
                    trim_model(q.skip(i + 1)),
                ),
                None => ReplModel::SetUsage,
            }
        } else {
            ReplModel::UnknownBuiltin
        }
    }
}

/// `find_space` returns the least space position at or after `from`.
proof fn lemma_find_space(s: Seq<u8>, from: int)
    ensures
        find_space(s, from) matches Some(i) ==> {
            &&& from <= i < s.len()
            &&& s[i] == 0x20
            &&& forall|j: int| from <= j < i ==> s[j] != 0x20
        },
        find_space(s, from) is None ==> forall|j: int| from <= j < s.len() ==> s[j] != 0x20,
    decreases s.len() - from,
{
    if from < s.len() && s[from] != 0x20 {
        lemma_find_space(s, from + 1);
    }
}

/// The first space at or after `from` is `i` when `i` holds a space and no
/// earlier position at or after `from` does.
proof fn lemma_find_space_exact(s: Seq<u8>, from: int, i: int)
    requires
        0 <= from <= i < s.len(),
        s[i] == 0x20,
        forall|j: int| from <= j < i ==> s[j] != 0x20,
    ensures
        find_space(s, from) == Some(i),
    decreases i - from,
{
    if from < i {
        lemma_find_space_exact(s, from + 1, i);
    }
}

/// ASCII-whitespace test; mirrors `is_ws`.
fn is_ws_byte(b: u8) -> (r: bool)
    ensures
        r == is_ws(b),
{
    b == 0x20 || b == 0x09 || b == 0x0A || b == 0x0D
}

/// Trims ASCII whitespace from both ends; mirrors `trim_model`.
pub fn trim_bytes(s: &[u8]) -> (t: Vec<u8>)
    ensures
        t@ == trim_model(s@),
{
    let mut a: usize = 0;
    let mut b: usize = s.len();
    assert(s@.subrange(0, s@.len() as int) =~= s@);
    while a < b && is_ws_byte(*vstd::slice::slice_index_get(s, a))
        invariant
            0 <= a <= b <= s@.len(),
            trim_model(s@.subrange(a as int, b as int)) == trim_model(s@),
        decreases b - a,
    {
        assert(s@.subrange(a as int, b as int).skip(1) =~= s@.subrange(a as int + 1, b as int));
        a = a + 1;
    }
    while a < b && is_ws_byte(*vstd::slice::slice_index_get(s, b - 1))
        invariant
            0 <= a <= b <= s@.len(),
            trim_model(s@.subrange(a as int, b as int)) == trim_model(s@),
            a < b ==> !is_ws(s@[a as int]),
        decreases b - a,
    {
        assert(s@.subrange(a as int, b as int).take(b - a - 1) =~= s@.subrange(
            a as int,
            b as int - 1,
        ));
        b = b - 1;
    }
    let out = vstd::slice::slice_to_vec(vstd::slice::slice_subrange(s, a, b));
    assert(out@ == trim_model(s@)) by {
        let u = s@.subrange(a as int, b as int);
        if u.len() > 0 {
            assert(u[0] == s@[a as int]);
            assert(u[u.len() - 1] == s@[b as int - 1]);
        }
    }
    out
}

/// Whether two byte strings are equal.
pub fn bytes_equal(x: &[u8], y: &[u8]) -> (r: bool)
    ensures
        r == (x@ == y@),
{
    if x.len() != y.len() {
        assert(x@ != y@);
        return false;
    }
    let r = bytes_match_at(x, y, 0);
    proof {
        if r {
            assert(x@.subrange(0, y@.len() as int) =~= x@);
        } else {
            assert(x@.subrange(0int, 0int + y@.len() as int) =~= x@);
        }
    }
    r
}

/// Parses one shell input line; mirrors `repl_model`.
pub fn parse_repl_line(line: &[u8]) -> (r: ReplAction)
    ensures
        r@ == repl_model(line@),
{
    let t = trim_bytes(line);
    if t.len() == 0 {
        return ReplAction::Exec(t);
    }
    if t[0] != BUILTIN_PREFIX {
        return ReplAction::Exec(t);
    }
    let b = vstd::slice::slice_to_vec(vstd::slice::slice_subrange(t.as_slice(), 1, t.len()));
    assert(b@ =~= t@.skip(1));
    if bytes_equal(b.as_slice(), "help".as_bytes()) {
        return ReplAction::ShowHelp;
    }
    if bytes_equal(b.as_slice(), "quit".as_bytes()) {
        return ReplAction::Quit;
    }
    if bytes_equal(b.as_slice(), "enable console".as_bytes()) {
        return ReplAction::EnableConsoleLogs;
    }
    let set_prefix = "set ".as_bytes();
    if b.len() >= set_prefix.len() && bytes_match_at(b.as_slice(), set_prefix, 0) {
        let q = vstd::slice::slice_to_vec(
            vstd::slice::slice_subrange(b.as_slice(), set_prefix.len(), b.len()),
        );
        assert(q@ =~= b@.skip(encode_utf8("set "@).len() as int));
        let qlen = q.len();
        let mut i: usize = 0;
        while i < qlen && q[i] != 0x20
            invariant
                0 <= i <= qlen,
                qlen == q@.len(),
                forall|j: int| 0 <= j < i ==> q@[j] != 0x20,
            decreases qlen - i,
        {
            i = i + 1;
        }
        if i == qlen {
            proof {
                lemma_find_space(q@, 0);
                if find_space(q@, 0) is Some {
                    let k = find_space(q@, 0)->Some_0;
                    assert(q@[k] == 0x20);
                }
            }
            return ReplAction::SetUsage;
        }
        proof {
            lemma_find_space_exact(q@, 0, i as int);
        }
        let var = trim_bytes(vstd::slice::slice_subrange(q.as_slice(), 0, i));
        let val = trim_bytes(vstd::slice::slice_subrange(q.as_slice(), i + 1, qlen));
        assert(q@.subrange(0, i as int) =~= q@.take(i as int));
        assert(q@.subrange(i as int + 1, qlen as int) =~= q@.skip(i as int + 1));
        return ReplAction::SetValue(var, val);
    }
    ReplAction::UnknownBuiltin
}

/// An authentication failure as the command line reports it.
#[derive(Debug)]
pub struct CliAuthError(pub AuthError);

impl CliAuthError {
    /// Whether this failure ends the session: only a rejected password
    /// leaves the connection worth retrying.
    pub fn is_fatal(&self) -> (b: bool)
        ensures
            b == !(self.0 is InvalidPassword),
    {
        match &self.0 {
            AuthError::InvalidPassword => false,
            AuthError::Banned => true,
            AuthError::Fatal(_) => true,
        }
    }
}

} // verus!
