//! Text helpers of the human template form of values: Unicode whitespace
//! trimming, repeated prefix and suffix stripping, and splitting at the
//! first occurrence of a character.

use vstd::prelude::*;
use crate::error::{Error, ErrorKind, Result};
use crate::ext::{b64_decode, base64url_decode, utf8_lossy, utf8_lossy_text};
use crate::text::{chars_of, concat, starts_with, str_eq, string_of};

verus! {

/// A character with the Unicode `White_Space` property
/// (`char::is_whitespace`).
pub open spec fn is_whitespace(c: char) -> bool {
    ||| ('\u{9}' <= c && c <= '\u{d}')
    ||| c == ' '
    ||| c == '\u{85}'
    ||| c == '\u{a0}'
    ||| c == '\u{1680}'
    ||| ('\u{2000}' <= c && c <= '\u{200a}')
    ||| c == '\u{2028}'
    ||| c == '\u{2029}'
    ||| c == '\u{202f}'
    ||| c == '\u{205f}'
    ||| c == '\u{3000}'
}

/// True for a character with the Unicode `White_Space` property.
pub fn whitespace(c: char) -> (r: bool)
    ensures
        r == is_whitespace(c),
{
    ('\u{9}' <= c && c <= '\u{d}') || c == ' ' || c == '\u{85}' || c == '\u{a0}' || c == '\u{1680}'
        || ('\u{2000}' <= c && c <= '\u{200a}') || c == '\u{2028}' || c == '\u{2029}' || c
        == '\u{202f}' || c == '\u{205f}' || c == '\u{3000}'
}

/// `s` without its leading whitespace.
pub open spec fn trim_start(s: Seq<char>) -> Seq<char>
    decreases s.len(),
{
    if s.len() > 0 && is_whitespace(s[0]) {
        trim_start(s.drop_first())
    } else {
        s
    }
}

/// `s` without its trailing whitespace.
pub open spec fn trim_end(s: Seq<char>) -> Seq<char>
    decreases s.len(),
{
    if s.len() > 0 && is_whitespace(s.last()) {
        trim_end(s.drop_last())
    } else {
        s
    }
}

/// `s` without leading and trailing whitespace (`str::trim`).
pub open spec fn trim(s: Seq<char>) -> Seq<char> {
    trim_end(trim_start(s))
}

/// `s` with every leading `{{` removed (`str::trim_start_matches("{{")`).
pub open spec fn strip_opens(s: Seq<char>) -> Seq<char>
    decreases s.len(),
{
    if s.len() >= 2 && s[0] == '{' && s[1] == '{' {
        strip_opens(s.subrange(2, s.len() as int))
    } else {
        s
    }
}

/// `s` with every trailing `}}` removed (`str::trim_end_matches("}}")`).
pub open spec fn strip_closes(s: Seq<char>) -> Seq<char>
    decreases s.len(),
{
    if s.len() >= 2 && s[s.len() - 2] == '}' && s[s.len() - 1] == '}' {
        strip_closes(s.subrange(0, s.len() - 2))
    } else {
        s
    }
}

/// `p` ends `s`.
pub open spec fn ends_with(s: Seq<char>, p: Seq<char>) -> bool {
    p.len() <= s.len() && s.subrange(s.len() - p.len(), s.len() as int) == p
}

/// `i` is the first position of `c` in `s`.
pub open spec fn first_at(s: Seq<char>, c: char, i: int) -> bool {
    &&& 0 <= i < s.len()
    &&& s[i] == c
    &&& forall|j: int| 0 <= j < i ==> s[j] != c
}

/// The text before and after the first `c` in `s`, if there is one
/// (`str::split_once`).
pub open spec fn split_once(s: Seq<char>, c: char) -> Option<(Seq<char>, Seq<char>)> {
    if exists|i: int| first_at(s, c, i) {
        let i = choose|i: int| first_at(s, c, i);
        Some((s.subrange(0, i), s.subrange(i + 1, s.len() as int)))
    } else {
        None
    }
}

proof fn lemma_trim_start_step(s: Seq<char>, i: int)
    requires
        0 <= i < s.len(),
        is_whitespace(s[i]),
    ensures
        trim_start(s.subrange(i, s.len() as int)) == trim_start(s.subrange(i + 1, s.len() as int)),
{
    assert(s.subrange(i, s.len() as int).drop_first() =~= s.subrange(i + 1, s.len() as int));
}

proof fn lemma_trim_end_step(s: Seq<char>, lo: int, j: int)
    requires
        0 <= lo < j <= s.len(),
        is_whitespace(s[j - 1]),
    ensures
        trim_end(s.subrange(lo, j)) == trim_end(s.subrange(lo, j - 1)),
{
    assert(s.subrange(lo, j).drop_last() =~= s.subrange(lo, j - 1));
}

/// The bounds of `trim(v)` within `v`.
fn trim_bounds(v: &Vec<char>) -> (r: (usize, usize))
    ensures
        r.0 <= r.1 <= v@.len(),
        v@.subrange(r.0 as int, r.1 as int) == trim(v@),
{
    let n = v.len();
    let mut i: usize = 0;
    proof {
        assert(v@.subrange(0, n as int) =~= v@);
    }
    while i < n && whitespace(v[i])
        invariant
            i <= n == v@.len(),
            trim_start(v@) == trim_start(v@.subrange(i as int, n as int)),
        decreases n - i,
    {
        proof {
            lemma_trim_start_step(v@, i as int);
        }
        i = i + 1;
    }
    proof {
        assert(trim_start(v@) == v@.subrange(i as int, n as int));
    }
    let mut j: usize = n;
    while j > i && whitespace(v[j - 1])
        invariant
            i <= j <= n == v@.len(),
            trim(v@) == trim_end(v@.subrange(i as int, j as int)),
        decreases j,
    {
        proof {
            lemma_trim_end_step(v@, i as int, j as int);
        }
        j = j - 1;
    }
    proof {
        if j > i {
            assert(v@.subrange(i as int, j as int).last() == v@[j - 1]);
        }
    }
    (i, j)
}

/// `str::trim`: the text without leading and trailing whitespace.
pub fn trim_str(s: &str) -> (r: String)
    ensures
        r@ == trim(s@),
{
    let v = chars_of(s);
    let (lo, hi) = trim_bounds(&v);
    string_of(v.as_slice(), lo, hi)
}

/// `str::trim_start_matches("{{")` then `str::trim_end_matches("}}")`.
pub fn strip_braces(s: &str) -> (r: String)
    ensures
        r@ == strip_closes(strip_opens(s@)),
{
    let v = chars_of(s);
    let n = v.len();
    let mut i: usize = 0;
    proof {
        assert(v@.subrange(0, n as int) =~= v@);
    }
    while n - i >= 2 && v[i] == '{' && v[i + 1] == '{'
        invariant
            i <= n == v@.len(),
            strip_opens(v@) == strip_opens(v@.subrange(i as int, n as int)),
        decreases n - i,
    {
        proof {
            let t = v@.subrange(i as int, n as int);
            assert(t.subrange(2, t.len() as int) =~= v@.subrange(i + 2, n as int));
        }
        i = i + 2;
    }
    let mut j: usize = n;
    while j - i >= 2 && v[j - 2] == '}' && v[j - 1] == '}'
        invariant
            i <= j <= n == v@.len(),
            strip_closes(strip_opens(v@)) == strip_closes(v@.subrange(i as int, j as int)),
        decreases j,
    {
        proof {
            let t = v@.subrange(i as int, j as int);
            assert(t.subrange(0, t.len() - 2) =~= v@.subrange(i as int, j - 2));
        }
        j = j - 2;
    }
    string_of(v.as_slice(), i, j)
}

/// `str::split_once(c)`: the text before and after the first `c`.
pub fn split_once_str(s: &str, c: char) -> (r: Option<(String, String)>)
    ensures
        match split_once(s@, c) {
            Some((a, b)) => r matches Some((x, y)) && x@ == a && y@ == b,
            None => r is None,
        },
{
    let v = chars_of(s);
    let mut i: usize = 0;
    while i < v.len()
        invariant
            v@ == s@,
            i <= v@.len(),
            forall|j: int| 0 <= j < i ==> v@[j] != c,
        decreases v@.len() - i,
    {
        if v[i] == c {
            proof {
                assert(first_at(s@, c, i as int));
                let k = choose|k: int| first_at(s@, c, k);
                if k < i {
                    assert(v@[k] != c);
                } else if k > i {
                    assert(s@[i as int] != c);
                }
            }
            let a = string_of(v.as_slice(), 0, i);
            let b = string_of(v.as_slice(), i + 1, v.len());
            return Some((a, b));
        }
        i = i + 1;
    }
    proof {
        assert(!exists|k: int| first_at(s@, c, k));
    }
    None
}

/// What a string of the human form stands for.
pub enum TemplateSpec {
    /// Not a template: the string itself.
    Plain,
    /// The contents of a file (a path under the root), as bytes or as text.
    Include(Seq<char>, bool),
    /// Bytes given in base64url.
    Bin(Seq<u8>),
    /// Text given in base64url: the bytes, decoded as UTF-8 (lossy).
    Text(Seq<u8>),
    /// A template with no space between command and argument.
    NoCommand,
    /// A command that is not known.
    Unknown(Seq<char>),
    /// A base64url argument that does not decode.
    BadBase64,
}

/// The template a string holds: after trimming, a template starts with
/// `{{` and ends with `}}`; inside, after the braces and whitespace, comes
/// a command, a space, and its argument (`inc-bin <file>`,
/// `inc-str <file>`, `b64-bin <data>`, `b64-str <data>`).
pub open spec fn template_spec(s: Seq<char>) -> TemplateSpec {
    let t = trim(s);
    if !("{{"@.is_prefix_of(t) && ends_with(t, "}}"@)) {
        TemplateSpec::Plain
    } else {
        match split_once(trim(strip_closes(strip_opens(t))), ' ') {
            None => TemplateSpec::NoCommand,
            Some((cmd, rest)) => {
                let c = trim(cmd);
                let arg = trim(rest);
                if c == "inc-bin"@ {
                    TemplateSpec::Include(arg, false)
                } else if c == "inc-str"@ {
                    TemplateSpec::Include(arg, true)
                } else if c == "b64-bin"@ {
                    match base64url_decode(arg) {
                        Some(b) => TemplateSpec::Bin(b),
                        None => TemplateSpec::BadBase64,
                    }
                } else if c == "b64-str"@ {
                    match base64url_decode(arg) {
                        Some(b) => TemplateSpec::Text(b),
                        None => TemplateSpec::BadBase64,
                    }
                } else {
                    TemplateSpec::Unknown(c)
                }
            },
        }
    }
}

/// A parsed string of the human form.
pub enum Template {
    /// Not a template: the string stands for itself.
    Plain,
    /// The contents of a file under the root, as bytes or as text.
    Include {
        /// The path of the file, relative to the root.
        file: String,
        /// Whether the contents become text (else bytes).
        as_str: bool,
    },
    /// Bytes.
    Bin(Vec<u8>),
    /// Text.
    Text(String),
}

/// A parse result matches the template a string holds; refusals are of
/// kind `Other`, with the messages of the human form.
pub open spec fn parsed_as(s: Seq<char>, r: Result<Template>) -> bool {
    match template_spec(s) {
        TemplateSpec::Plain => r matches Ok(Template::Plain),
        TemplateSpec::Include(f, a) => r matches Ok(Template::Include { file, as_str }) && file@ == f
            && as_str == a,
        TemplateSpec::Bin(b) => r matches Ok(Template::Bin(x)) && x@ == b,
        TemplateSpec::Text(b) => r matches Ok(Template::Text(x)) && x@ == utf8_lossy_text(b) && (
        vstd::utf8::valid_utf8(b) ==> x@ == vstd::utf8::decode_utf8(b)),
        TemplateSpec::NoCommand => r matches Err(e) && e.kind == ErrorKind::Other && (e.message matches Some(
            m,
        ) && m@ == "invalid template command "@ + s),
        TemplateSpec::Unknown(c) => r matches Err(e) && e.kind == ErrorKind::Other && (e.message matches Some(
            m,
        ) && m@ == "unrecognized template cmd: "@ + c),
        TemplateSpec::BadBase64 => r matches Err(e) && e.kind == ErrorKind::Other,
    }
}

/// True if the text ends with `}}`.
fn ends_with_closes(s: &str) -> (r: bool)
    ensures
        r == ends_with(s@, "}}"@),
{
    let v = chars_of(s);
    let n = v.len();
    proof {
        reveal_strlit("}}");
    }
    if n < 2 {
        return false;
    }
    let r = v[n - 2] == '}' && v[n - 1] == '}';
    proof {
        if r {
            assert(s@.subrange(n - 2, n as int) =~= "}}"@);
        } else {
            assert(s@.subrange(n - 2, n as int)[0] == s@[n - 2]);
            assert(s@.subrange(n - 2, n as int)[1] == s@[n - 1]);
        }
    }
    r
}

/// Parses a string of the human form.
pub fn parse_template(s: &str) -> (r: Result<Template>)
    ensures
        parsed_as(s@, r),
{
    let t = trim_str(s);
    if !(starts_with(t.as_str(), "{{") && ends_with_closes(t.as_str())) {
        return Ok(Template::Plain);
    }
    let inner = trim_str(strip_braces(t.as_str()).as_str());
    let (cmd, rest) = match split_once_str(inner.as_str(), ' ') {
        Some(p) => p,
        None => {
            let msg = concat("invalid template command ", s);
            return Err(Error::other(msg.as_str()));
        },
    };
    let c = trim_str(cmd.as_str());
    let arg = trim_str(rest.as_str());
    if str_eq(c.as_str(), "inc-bin") {
        Ok(Template::Include { file: arg, as_str: false })
    } else if str_eq(c.as_str(), "inc-str") {
        Ok(Template::Include { file: arg, as_str: true })
    } else if str_eq(c.as_str(), "b64-bin") {
        match b64_decode(arg.as_str()) {
            Some(b) => Ok(Template::Bin(b)),
            None => Err(Error::other("invalid base64url")),
        }
    } else if str_eq(c.as_str(), "b64-str") {
        match b64_decode(arg.as_str()) {
            Some(b) => Ok(Template::Text(utf8_lossy(b.as_slice()))),
            None => Err(Error::other("invalid base64url")),
        }
    } else {
        let msg = concat("unrecognized template cmd: ", c.as_str());
        Err(Error::other(msg.as_str()))
    }
}

} // verus!
