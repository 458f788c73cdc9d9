use vstd::prelude::*;
use crate::error::{Error, ErrorView, Stage, Tag};

verus! {

/// The text of each tag as it stands in a line.
pub open spec fn tag_text(t: Tag) -> Seq<char> {
    match t {
        Tag::BuilderId => "builder-id"@,
        Tag::Id => "id"@,
        Tag::Str => "string"@,
        Tag::FilesCount => "files-count"@,
        Tag::File => "file"@,
        Tag::End => "end"@,
        Tag::ArtifactCount => "artifact-count"@,
        Tag::Artifact => "artifact"@,
    }
}

pub fn tag_str(t: Tag) -> (r: &'static str)
    ensures
        r@ == tag_text(t),
{
    match t {
        Tag::BuilderId => "builder-id",
        Tag::Id => "id",
        Tag::Str => "string",
        Tag::FilesCount => "files-count",
        Tag::File => "file",
        Tag::End => "end",
        Tag::ArtifactCount => "artifact-count",
        Tag::Artifact => "artifact",
    }
}

/// Compares two strings character by character.
pub fn str_equal(a: &str, b: &str) -> (r: bool)
    ensures
        r == (a@ == b@),
{
    let n = a.unicode_len();
    if n != b.unicode_len() {
        return false;
    }
    let mut i: usize = 0;
    while i < n
        invariant
            n == a@.len(),
            n == b@.len(),
            i <= n,
            a@.subrange(0, i as int) == b@.subrange(0, i as int),
        decreases n - i,
    {
        if a.get_char(i) != b.get_char(i) {
            return false;
        }
        assert(a@.subrange(0, i + 1) =~= a@.subrange(0, i as int).push(a@[i as int]));
        assert(b@.subrange(0, i + 1) =~= b@.subrange(0, i as int).push(b@[i as int]));
        i = i + 1;
    }
    assert(a@ =~= a@.subrange(0, n as int));
    assert(b@ =~= b@.subrange(0, n as int));
    true
}

/// Whether a token is the given tag.
pub fn is_tag(token: &String, t: Tag) -> (r: bool)
    ensures
        r == (token@ == tag_text(t)),
{
    str_equal(token.as_str(), tag_str(t))
}

/// Checks that a line carries the tag that the decoder at `stage` expects.
pub fn expect_message(stage: Stage, expected: Tag, message: &String) -> (r: Result<(), Error>)
    ensures
        r is Ok <==> message@ == tag_text(expected),
        r is Err ==> r->Err_0@ == (ErrorView::UnexpectedToken {
            stage,
            expected,
            actual: message@,
        }),
{
    if is_tag(message, expected) {
        Ok(())
    } else {
        Err(Error::UnexpectedToken { stage, expected, actual: message.clone() })
    }
}

pub open spec fn is_digit(c: char) -> bool {
    '0' <= c && c <= '9'
}

pub open spec fn all_digits(s: Seq<char>) -> bool {
    forall|i: int| 0 <= i < s.len() ==> is_digit(#[trigger] s[i])
}

/// The value of a sequence of decimal digits, most significant first.
pub open spec fn digits_value(s: Seq<char>) -> nat
    decreases s.len(),
{
    if s.len() == 0 {
        0
    } else {
        digits_value(s.drop_last()) * 10 + (s.last() as nat - '0' as nat) as nat
    }
}

/// The digits of a number token: the token without its leading `+`, if it has one.
pub open spec fn unsigned_digits(s: Seq<char>) -> Seq<char> {
    if s.len() > 0 && s[0] == '+' {
        s.skip(1)
    } else {
        s
    }
}

/// A count or an index: an optional `+`, then one or more decimal digits whose
/// value fits a `usize`.
pub open spec fn parse_number(s: Seq<char>) -> Option<nat> {
    let d = unsigned_digits(s);
    if d.len() > 0 && all_digits(d) && digits_value(d) <= usize::MAX {
        Some(digits_value(d))
    } else {
        None
    }
}

/// Reads a decimal count or index, with an optional leading `+`.
pub fn parse_usize(s: &str) -> (r: Option<usize>)
    ensures
        match r {
            Some(n) => parse_number(s@) == Some(n as nat),
            None => parse_number(s@) is None,
        },
{
    let n = s.unicode_len();
    if n > 0 && s.get_char(0) == '+' {
        let rest = s.substring_char(1, n);
        assert(rest@ =~= s@.skip(1));
        parse_digits(rest)
    } else {
        parse_digits(s)
    }
}

/// Reads one or more decimal digits whose value fits a `usize`.
fn parse_digits(s: &str) -> (r: Option<usize>)
    ensures
        match r {
            Some(n) => s@.len() > 0 && all_digits(s@) && digits_value(s@) == n as nat,
            None => !(s@.len() > 0 && all_digits(s@) && digits_value(s@) <= usize::MAX),
        },
{
    let n = s.unicode_len();
    if n == 0 {
        return None;
    }
    let mut val: usize = 0;
    let mut overflow = false;
    let mut i: usize = 0;
    while i < n
        invariant
            n == s@.len(),
            i <= n,
            all_digits(s@.subrange(0, i as int)),
            !overflow ==> val as nat == digits_value(s@.subrange(0, i as int)),
            overflow ==> digits_value(s@.subrange(0, i as int)) > usize::MAX,
        decreases n - i,
    {
        let c = s.get_char(i);
        if !('0' <= c && c <= '9') {
            return None;
        }
        let ghost prev = s@.subrange(0, i as int);
        assert(s@.subrange(0, i + 1).drop_last() =~= prev);
        assert(all_digits(s@.subrange(0, i + 1))) by {
            assert forall|k: int| 0 <= k < i + 1 implies is_digit(
                #[trigger] s@.subrange(0, i + 1)[k],
            ) by {
                if k < i {
                    assert(s@.subrange(0, i + 1)[k] == prev[k]);
                }
            }
        }
        let d = (c as u32 - '0' as u32) as usize;
        if !overflow {
            match val.checked_mul(10) {
                Some(m) => match m.checked_add(d) {
                    Some(v) => {
                        val = v;
                    },
                    None => {
                        overflow = true;
                    },
                },
                None => {
                    overflow = true;
                },
            }
        }
        i = i + 1;
    }
    assert(s@ =~= s@.subrange(0, n as int));
    if overflow {
        None
    } else {
        Some(val)
    }
}

} // verus!
