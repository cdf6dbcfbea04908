//! The tagged geographic element model: nodes, ways and relations with
//! string tags, tag lookup, and parsing of the `lanes` tag value.

use vstd::prelude::*;
use crate::text::str_is;

verus! {

/// Discriminant of a geographic element.
#[derive(Clone, Copy, Debug, PartialEq, Eq, Structural)]
pub enum ElementKind {
    Node,
    Way,
    Relation,
}

/// A tagged geographic primitive. A node carries an optional position in
/// 1e-7 degree units; a way or relation carries an ordered sequence of
/// referenced node ids, which may be empty if unresolved. Tag keys are
/// unique in well-formed inputs; lookup takes the first match.
pub struct OsmElement {
    pub id: i64,
    pub kind: ElementKind,
    pub lat: Option<i64>,
    pub lon: Option<i64>,
    pub tags: Vec<(String, String)>,
    pub nodes: Option<Vec<i64>>,
}

/// The value of the first tag entry whose key reads `key`.
pub open spec fn spec_tag(tags: Seq<(String, String)>, key: Seq<char>) -> Option<Seq<char>>
    decreases tags.len(),
{
    if tags.len() == 0 {
        None
    } else if tags[0].0@ == key {
        Some(tags[0].1@)
    } else {
        spec_tag(tags.drop_first(), key)
    }
}

/// A tag with key `key` is present.
pub open spec fn spec_has_tag(tags: Seq<(String, String)>, key: Seq<char>) -> bool {
    spec_tag(tags, key) is Some
}

/// The tag with key `key` is present and reads `val`.
pub open spec fn spec_tag_is(tags: Seq<(String, String)>, key: Seq<char>, val: Seq<char>) -> bool {
    spec_tag(tags, key) == Some(val)
}

/// Looks `key` up in a tag mapping; see [`spec_tag`].
pub fn get_tag<'a>(tags: &'a Vec<(String, String)>, key: &str) -> (r: Option<&'a String>)
    ensures
        match r {
            Some(v) => spec_tag(tags@, key@) == Some(v@),
            None => spec_tag(tags@, key@) is None,
        },
{
    let mut i: usize = 0;
    proof {
        assert(tags@.skip(0) =~= tags@);
    }
    while i < tags.len()
        invariant
            i <= tags@.len(),
            spec_tag(tags@, key@) == spec_tag(tags@.skip(i as int), key@),
        decreases tags@.len() - i,
    {
        if str_is(tags[i].0.as_str(), key) {
            return Some(&tags[i].1);
        }
        proof {
            assert(tags@.skip(i as int).drop_first() =~= tags@.skip(i + 1));
        }
        i = i + 1;
    }
    None
}

pub open spec fn spec_is_digit(c: char) -> bool {
    48 <= c as int <= 57
}

/// Numeric value of a digit string, most significant digit first.
pub open spec fn spec_digits_val(s: Seq<char>) -> int
    decreases s.len(),
{
    if s.len() == 0 {
        0
    } else {
        spec_digits_val(s.drop_last()) * 10 + (s.last() as int - 48)
    }
}

/// Every character is a decimal digit.
pub open spec fn spec_all_digits(s: Seq<char>) -> bool
    decreases s.len(),
{
    s.len() == 0 || (spec_is_digit(s[0]) && spec_all_digits(s.drop_first()))
}

proof fn lemma_all_digits_push(s: Seq<char>, c: char)
    ensures
        spec_all_digits(s.push(c)) == (spec_all_digits(s) && spec_is_digit(c)),
    decreases s.len(),
{
    if s.len() == 0 {
        assert(s.push(c)[0] == c);
        assert(s.push(c).drop_first() =~= s);
    } else {
        assert(s.push(c).drop_first() =~= s.drop_first().push(c));
        lemma_all_digits_push(s.drop_first(), c);
    }
}

proof fn lemma_not_all_digits(s: Seq<char>, k: int)
    requires
        0 <= k < s.len(),
        !spec_is_digit(s[k]),
    ensures
        !spec_all_digits(s),
    decreases k,
{
    if k > 0 {
        lemma_not_all_digits(s.drop_first(), k - 1);
    }
}

/// What `str::parse::<u32>` accepts: an optional leading `'+'`, then one or
/// more decimal digits whose value fits in 32 bits.
pub open spec fn spec_parse_u32(s: Seq<char>) -> Option<u32> {
    let body = if s.len() > 0 && s[0] == '+' {
        s.drop_first()
    } else {
        s
    };
    if body.len() > 0 && spec_all_digits(body) && spec_digits_val(body) <= u32::MAX as int {
        Some(spec_digits_val(body) as u32)
    } else {
        None
    }
}

/// Parses an unsigned 32-bit decimal value; see [`spec_parse_u32`].
pub fn parse_u32_str(s: &str) -> (r: Option<u32>)
    ensures
        r == spec_parse_u32(s@),
{
    let n = s.unicode_len();
    let start: usize = if n > 0 && s.get_char(0) == '+' {
        1
    } else {
        0
    };
    let ghost body = if s@.len() > 0 && s@[0] == '+' {
        s@.drop_first()
    } else {
        s@
    };
    proof {
        assert(body =~= s@.skip(start as int));
    }
    if start == n {
        return None;
    }
    let mut acc: u64 = 0;
    let mut over = false;
    let mut j: usize = start;
    while j < n
        invariant
            n == s@.len(),
            start <= j <= n,
            start < n,
            body == s@.skip(start as int),
            body == (if s@.len() > 0 && s@[0] == '+' {
                s@.drop_first()
            } else {
                s@
            }),
            body.len() == n - start,
            spec_all_digits(body.take(j - start)),
            !over ==> acc == spec_digits_val(body.take(j - start)) && acc <= u32::MAX,
            over ==> spec_digits_val(body.take(j - start)) > u32::MAX,
        decreases n - j,
    {
        let c = s.get_char(j);
        let cv = c as u32;
        if cv < 48 || cv > 57 {
            proof {
                assert(0 <= j - start < body.len());
                assert(!spec_is_digit(body[j - start]));
                lemma_not_all_digits(body, j - start);
                assert(spec_parse_u32(s@) is None);
            }
            return None;
        }
        let d: u64 = (cv - 48) as u64;
        proof {
            let k = j - start;
            assert(body.take(k + 1).drop_last() =~= body.take(k));
            assert(body.take(k + 1).last() == body[k]);
            assert(body.take(k).push(body[k]) =~= body.take(k + 1));
            lemma_all_digits_push(body.take(k), body[k]);
        }
        if !over {
            acc = acc * 10 + d;
            if acc > 0xffffffff {
                over = true;
            }
        }
        j = j + 1;
    }
    proof {
        assert(body.take(n - start) =~= body);
    }
    if over {
        None
    } else {
        Some(acc as u32)
    }
}

/// Number of lanes assumed for a routable way when the `lanes` tag is
/// absent or does not parse as an unsigned integer.
pub const DEFAULT_LANES: u32 = 2;

/// Lane count derived from an optional `lanes` tag value.
pub open spec fn spec_lanes(t: Option<Seq<char>>) -> int {
    match t {
        Some(s) => match spec_parse_u32(s) {
            Some(v) => v as int,
            None => DEFAULT_LANES as int,
        },
        None => DEFAULT_LANES as int,
    }
}

/// Parses the value of a `lanes` tag: an unparsable or absent value falls
/// back to [`DEFAULT_LANES`].
pub fn parse_lanes(lanes_str: Option<&String>) -> (r: u32)
    ensures
        r as int == spec_lanes(
            match lanes_str {
                Some(s) => Some(s@),
                None => None,
            },
        ),
{
    match lanes_str {
        Some(s) => match parse_u32_str(s.as_str()) {
            Some(v) => v,
            None => DEFAULT_LANES,
        },
        None => DEFAULT_LANES,
    }
}

} // verus!
