//! Names: nicknames, names of uploaded files, and where the files lie.

use vstd::prelude::*;
use vstd::utf8::encode_utf8;
use crate::number::to_decimal;
use crate::text::{alnum, chars_of, concat2, concat4, ends_with, trim};
#[allow(unused_imports)]
use crate::number::{decimal, law_decimal_is_unique, lemma_decimal};
#[allow(unused_imports)]
use crate::text::{is_alnum, is_space, lemma_trim_end_is, lemma_trim_start_is, trimmed};

verus! {

/// The most characters that a nickname has.
pub const MAX_NICKNAME_CHARS: usize = 16;

/// The most bytes that the name of a file has.
pub const MAX_FILENAME_BYTES: usize = 255;

// ---------------------------------------------------------------------------
// Nicknames

/// A character that a nickname may hold.
pub open spec fn nickname_char(c: char) -> bool {
    is_alnum(c) || c == '_' || c == '-'
}

/// What is wrong with `name` as a nickname, if anything.
pub open spec fn nickname_problem(name: Seq<char>) -> Option<Seq<char>> {
    if name.len() == 0 {
        Some("nickname cannot be empty"@)
    } else if name.len() > MAX_NICKNAME_CHARS {
        Some("nickname is too long (maximum: 16 characters)"@)
    } else if exists|i: int| 0 <= i < name.len() && !nickname_char(#[trigger] name[i]) {
        Some("nickname may only contain letters, numbers, '_' and '-'"@)
    } else {
        None
    }
}

/// What is wrong with `name` as a nickname, if anything.
pub fn nickname_error(name: &str) -> (problem: Option<&'static str>)
    ensures
        match problem {
            Some(problem) => nickname_problem(name@) == Some(problem@),
            None => nickname_problem(name@) is None,
        },
{
    let chars: Vec<char> = chars_of(name);
    if chars.len() == 0 {
        return Some("nickname cannot be empty");
    }
    if chars.len() > MAX_NICKNAME_CHARS {
        return Some("nickname is too long (maximum: 16 characters)");
    }
    let mut i: usize = 0;
    while i < chars.len()
        invariant
            chars@ == name@,
            0 < chars.len() <= MAX_NICKNAME_CHARS,
            i <= chars.len(),
            forall|k: int| 0 <= k < i ==> nickname_char(#[trigger] name@[k]),
        decreases chars.len() - i,
    {
        let c: char = chars[i];
        if !(alnum(c) || c == '_' || c == '-') {
            assert(!nickname_char(name@[i as int]));
            return Some("nickname may only contain letters, numbers, '_' and '-'");
        }
        i = i + 1;
    }
    None
}

/// The nickname of a client that has not asked for one.
pub open spec fn default_nickname(port: u16) -> Seq<char> {
    "user#"@ + decimal(port as nat)
}

/// The nickname of a client that has not asked for one.
pub fn first_nickname(port: u16) -> (name: String)
    ensures
        name@ == default_nickname(port),
{
    concat2("user#", to_decimal(port as u64).as_str())
}

/// A nickname that the server gives is none that a client may ask for.
pub proof fn law_default_nickname_is_reserved(port: u16)
    ensures
        nickname_problem(default_nickname(port)) is Some,
{
    reveal_strlit("user#");
    assert(default_nickname(port)[4] == '#');
}

// ---------------------------------------------------------------------------
// Files

/// A character that the name of a file may hold.
pub open spec fn filename_char(c: char) -> bool {
    is_alnum(c) || c == '.' || c == '_' || c == '-'
}

/// A name that a file may have.
pub open spec fn filename_ok(name: Seq<char>) -> bool {
    &&& 0 < name.len()
    &&& encode_utf8(name).len() <= MAX_FILENAME_BYTES
    &&& name[0] != '.'
    &&& forall|i: int| 0 <= i < name.len() ==> filename_char(#[trigger] name[i])
}

/// The name under which a file is stored that was sent under `name`.
pub open spec fn safe_filename(name: Seq<char>) -> Option<Seq<char>> {
    if filename_ok(trimmed(name)) {
        Some(trimmed(name))
    } else {
        None
    }
}

/// The name under which a file is stored that was sent under `name`, unless
/// that name is refused.
pub fn sanitize_filename(name: &str) -> (stored: Option<String>)
    ensures
        match stored {
            Some(stored) => safe_filename(name@) == Some(stored@),
            None => safe_filename(name@) is None,
        },
{
    let inner: &str = trim(name);
    let chars: Vec<char> = chars_of(inner);
    if chars.len() == 0 || inner.as_bytes().len() > MAX_FILENAME_BYTES {
        return None;
    }
    if chars[0] == '.' {
        return None;
    }
    let mut i: usize = 0;
    while i < chars.len()
        invariant
            chars@ == inner@,
            inner@ == trimmed(name@),
            i <= chars.len(),
            forall|k: int| 0 <= k < i ==> filename_char(#[trigger] inner@[k]),
        decreases chars.len() - i,
    {
        let c: char = chars[i];
        if !(alnum(c) || c == '.' || c == '_' || c == '-') {
            assert(!filename_char(inner@[i as int]));
            return None;
        }
        i = i + 1;
    }
    Some(inner.to_owned())
}

/// The directory that holds uploaded files.
pub fn uploads_dir() -> (dir: &'static str)
    ensures
        dir@ == "uploads"@,
{
    "uploads"
}

/// The name that an upload from `port` has until it is complete.
pub open spec fn part_name(name: Seq<char>, port: u16) -> Seq<char> {
    name + "."@ + decimal(port as nat) + ".part"@
}

/// The name that an upload from `port` has until it is complete.
pub fn temp_name(name: &str, port: u16) -> (temp: String)
    ensures
        temp@ == part_name(name@, port),
{
    concat4(name, ".", to_decimal(port as u64).as_str(), ".part")
}

/// Whether a name is that of an upload that is not complete.
pub open spec fn is_part(name: Seq<char>) -> bool {
    ".part"@.is_suffix_of(name)
}

/// Whether a name is that of an upload that is not complete.
pub fn partial(name: &str) -> (yes: bool)
    ensures
        yes == is_part(name@),
{
    ends_with(name, ".part")
}

/// A name without white space at its ends is trimmed already.
pub proof fn lemma_plain_is_trimmed(name: Seq<char>)
    requires
        forall|i: int| 0 <= i < name.len() ==> filename_char(#[trigger] name[i]),
    ensures
        trimmed(name) == name,
{
    let cut = |c: char| is_space(c);
    lemma_trim_start_is(name, cut, 0);
    assert(name.skip(0) == name);
    lemma_trim_end_is(name, cut, name.len() as int);
    assert(name.take(name.len() as int) == name);
}

/// A name that was accepted is accepted again, as it is.
pub proof fn law_stored_name_is_stable(name: Seq<char>, stored: Seq<char>)
    requires
        safe_filename(name) == Some(stored),
    ensures
        safe_filename(stored) == Some(stored),
{
    lemma_plain_is_trimmed(stored);
}

/// A file stays in the directory that it is put in: its name holds no
/// separator of a path or of a drive and no white space, and is not one of the
/// names for a directory itself.
pub proof fn law_stored_name_stays_in_directory(name: Seq<char>, stored: Seq<char>)
    requires
        safe_filename(name) == Some(stored),
    ensures
        !stored.contains('/'),
        !stored.contains('\\'),
        !stored.contains('\0'),
        !stored.contains(':'),
        forall|i: int| 0 <= i < stored.len() ==> !is_space(#[trigger] stored[i]),
        stored != "."@,
        stored != ".."@,
        stored.len() > 0,
{
    reveal_strlit(".");
    reveal_strlit("..");
    assert forall|c: char| stored.contains(c) implies filename_char(c) by {
        let i = choose|i: int| 0 <= i < stored.len() && stored[i] == c;
        assert(filename_char(stored[i]));
    }
}

/// An upload that is not complete is not taken for a file.
pub proof fn law_temp_name_is_part(name: Seq<char>, port: u16)
    ensures
        is_part(part_name(name, port)),
{
    assert(part_name(name, port).skip((name + "."@ + decimal(port as nat)).len() as int)
        =~= ".part"@);
}

/// Uploads of two names, or from two ports, are kept apart until they are
/// complete.
pub proof fn law_temp_names_are_distinct(a: Seq<char>, p: u16, b: Seq<char>, q: u16)
    requires
        part_name(a, p) == part_name(b, q),
    ensures
        a == b,
        p == q,
{
    reveal_strlit(".");
    let x = a + "."@ + decimal(p as nat);
    let y = b + "."@ + decimal(q as nat);
    let n = x.len();
    assert(part_name(a, p).len() == n + ".part"@.len());
    assert(part_name(b, q).len() == y.len() + ".part"@.len());
    assert(part_name(a, p).take(n as int) == x);
    assert(part_name(b, q).take(n as int) == y);
    assert(x == y);
    lemma_decimal(p as nat);
    lemma_decimal(q as nat);
    let i = a.len() as int;
    let j = b.len() as int;
    assert(x[i] == '.');
    assert(y[j] == '.');
    if i < j {
        assert(x[j] == decimal(p as nat)[j - i - 1]);
    } else if j < i {
        assert(y[i] == decimal(q as nat)[i - j - 1]);
    }
    assert(x.take(i) == a);
    assert(y.take(i) == b);
    assert(x.skip(i + 1) == decimal(p as nat));
    assert(y.skip(i + 1) == decimal(q as nat));
    law_decimal_is_unique(p as nat, q as nat);
}

/// A character that is a letter or a digit of ASCII, or one of two signs.
pub open spec fn letter_digit_or_dash(c: char) -> bool {
    'a' <= c <= 'z' || 'A' <= c <= 'Z' || '0' <= c <= '9' || c == '_' || c == '-'
}

/// A nickname may be asked for if and only if it has one to sixteen characters,
/// all of them letters, digits, `_` or `-`. What is wrong with another is said,
/// the length first.
pub proof fn law_nicknames_that_may_be_asked_for(name: Seq<char>)
    ensures
        nickname_problem(name) is None <==> 1 <= name.len() <= 16 && forall|i: int|
            0 <= i < name.len() ==> letter_digit_or_dash(#[trigger] name[i]),
        name.len() == 0 ==> nickname_problem(name) == Some("nickname cannot be empty"@),
        name.len() > 16 ==> nickname_problem(name) == Some(
            "nickname is too long (maximum: 16 characters)"@,
        ),
        1 <= name.len() <= 16 && nickname_problem(name) is Some ==> nickname_problem(name) == Some(
            "nickname may only contain letters, numbers, '_' and '-'"@,
        ),
{
    if nickname_problem(name) is None {
        assert forall|i: int| 0 <= i < name.len() implies letter_digit_or_dash(
            #[trigger] name[i],
        ) by {
            assert(nickname_char(name[i]));
        }
    }
}

/// The nickname that the server gives is `user#` and the port, in full.
pub proof fn law_given_nickname_holds_the_port(port: u16)
    ensures
        default_nickname(port).take(5) == "user#"@,
        crate::number::parsed(default_nickname(port).skip(5)) == Some(port as u64),
{
    reveal_strlit("user#");
    assert(default_nickname(port).take(5) =~= "user#"@);
    assert(default_nickname(port).skip(5) =~= decimal(port as nat));
    crate::number::law_number_is_read_back(port as u64);
}

/// A file is stored under the name that it was sent under, without the white
/// space at its ends; and that name is accepted if and only if it has at least
/// one character and at most 255 bytes, all its characters are letters, digits,
/// `.`, `_` or `-`, and it does not start with a dot.
pub proof fn law_names_that_files_may_have(name: Seq<char>)
    ensures
        safe_filename(name) is Some <==> {
            let inner = trimmed(name);
            &&& inner.len() > 0
            &&& encode_utf8(inner).len() <= 255
            &&& inner[0] != '.'
            &&& forall|i: int|
                0 <= i < inner.len() ==> letter_digit_or_dash(#[trigger] inner[i]) || inner[i]
                    == '.'
        },
        safe_filename(name) is Some ==> safe_filename(name) == Some(trimmed(name)),
{
    let inner = trimmed(name);
    if filename_ok(inner) {
        assert forall|i: int| 0 <= i < inner.len() implies letter_digit_or_dash(
            #[trigger] inner[i],
        ) || inner[i] == '.' by {
            assert(filename_char(inner[i]));
        }
    }
}

/// An upload that is not complete has the name of the file, the port and an
/// ending of its own, with dots between; and only names with that ending are
/// taken for such an upload.
pub proof fn law_names_of_unfinished_uploads(name: Seq<char>, port: u16)
    ensures
        part_name(name, port) == name + seq!['.'] + decimal(port as nat) + seq![
            '.',
            'p',
            'a',
            'r',
            't',
        ],
        is_part(name) <==> name.len() >= 5 && name.skip(name.len() - 5) == seq![
            '.',
            'p',
            'a',
            'r',
            't',
        ],
{
    reveal_strlit(".");
    reveal_strlit(".part");
    let ending = seq!['.', 'p', 'a', 'r', 't'];
    assert(".part"@ =~= ending);
    assert("."@ =~= seq!['.']);
    if name.len() >= 5 {
        assert(name.subrange(name.len() - 5, name.len() as int) =~= name.skip(name.len() - 5));
    }
}

} // verus!
