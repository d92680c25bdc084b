//! String work on identifiers: JSON-pointer segments, URL fragments and the
//! paths reported with errors.
use vstd::prelude::*;

use crate::external::{percent_encode, percent_encoded};

verus! {

/// The JSON-pointer escape of one character (`~` as `~0`, `/` as `~1`),
/// with `%` written as `%25`.
pub open spec fn escape_char(c: char) -> Seq<char> {
    if c == '~' {
        seq!['~', '0']
    } else if c == '/' {
        seq!['~', '1']
    } else if c == '%' {
        seq!['%', '2', '5']
    } else {
        seq![c]
    }
}

/// `s` with every character escaped by `escape_char`.
pub open spec fn escape_segment(s: Seq<char>) -> Seq<char>
    decreases s.len(),
{
    if s.len() == 0 {
        Seq::empty()
    } else {
        escape_segment(s.drop_last()) + escape_char(s.last())
    }
}

/// A path segment as it stands in a schema tree and in a URL fragment.
pub open spec fn encoded_segment(s: Seq<char>) -> Seq<char> {
    percent_encoded(escape_segment(s))
}

/// The first position at or after `i` where `s` holds `c`.
pub open spec fn char_pos_from(s: Seq<char>, c: char, i: int) -> Option<int>
    decreases s.len() - i,
{
    if i < 0 || i >= s.len() {
        None
    } else if s[i] == c {
        Some(i)
    } else {
        char_pos_from(s, c, i + 1)
    }
}

/// The first position where `s` holds `c`.
pub open spec fn char_pos(s: Seq<char>, c: char) -> Option<int> {
    char_pos_from(s, c, 0)
}

pub proof fn lemma_char_pos_from(s: Seq<char>, c: char, i: int)
    requires
        0 <= i,
    ensures
        char_pos_from(s, c, i) matches Some(p) ==> i <= p < s.len() && s[p] == c && forall|j: int|
            i <= j < p ==> s[j] != c,
        char_pos_from(s, c, i) is None ==> forall|j: int| i <= j < s.len() ==> s[j] != c,
    decreases s.len() - i,
{
    if i < s.len() && s[i] != c {
        lemma_char_pos_from(s, c, i + 1);
    }
}

/// The first position where `s` holds `c`.
pub fn find_char(s: &str, c: char) -> (r: Option<usize>)
    ensures
        r matches Some(p) ==> char_pos(s@, c) == Some(p as int),
        r is None ==> char_pos(s@, c) is None,
{
    let n = s.unicode_len();
    let mut i: usize = 0;
    while i < n
        invariant
            n == s@.len(),
            i <= n,
            char_pos(s@, c) == char_pos_from(s@, c, i as int),
        decreases n - i,
    {
        if s.get_char(i) == c {
            return Some(i);
        }
        i = i + 1;
    }
    None
}

/// Escapes `~`, `/` and `%` of one JSON-pointer segment.
pub fn escape_pointer_segment(s: &str) -> (r: String)
    ensures
        r@ == escape_segment(s@),
{
    let n = s.unicode_len();
    let mut out = String::new();
    let mut i: usize = 0;
    while i < n
        invariant
            n == s@.len(),
            i <= n,
            out@ == escape_segment(s@.subrange(0, i as int)),
        decreases n - i,
    {
        let c = s.get_char(i);
        let ghost prev = out@;
        proof {
            reveal_strlit("~0");
            reveal_strlit("~1");
            reveal_strlit("%25");
            assert(s@.subrange(0, i + 1).drop_last() =~= s@.subrange(0, i as int));
            assert(s@.subrange(0, i + 1).last() == c);
        }
        if c == '~' {
            assert("~0"@ =~= seq!['~', '0']);
            out.append("~0");
        } else if c == '/' {
            assert("~1"@ =~= seq!['~', '1']);
            out.append("~1");
        } else if c == '%' {
            assert("%25"@ =~= seq!['%', '2', '5']);
            out.append("%25");
        } else {
            let one = s.substring_char(i, i + 1);
            assert(one@ =~= seq![c]);
            out.append(one);
        }
        assert(out@ =~= prev + escape_char(c));
        i = i + 1;
    }
    assert(s@.subrange(0, n as int) =~= s@);
    out
}

/// One segment of a path, escaped for use in a schema tree and in a URL
/// fragment.
pub fn encode(s: &str) -> (r: String)
    ensures
        r@ == encoded_segment(s@),
        forall|i: int| 0 <= i < r@.len() ==> (#[trigger] r@[i]) != '/' && r@[i] != '#',
{
    let escaped = escape_pointer_segment(s);
    proof {
        crate::external::lemma_percent_encoded_chars(escaped@);
    }
    percent_encode(escaped.as_str())
}

/// `parts` joined with `/` between them.
pub open spec fn join_slash(parts: Seq<Seq<char>>) -> Seq<char>
    decreases parts.len(),
{
    if parts.len() == 0 {
        Seq::empty()
    } else if parts.len() == 1 {
        parts[0]
    } else {
        join_slash(parts.drop_last()) + seq!['/'] + parts.last()
    }
}

/// The segments `parts`, each encoded.
pub open spec fn encoded_parts(parts: Seq<String>) -> Seq<Seq<char>> {
    parts.map_values(|p: String| encoded_segment(p@))
}

/// The segments of a path, each encoded, joined with `/`.
pub fn connect(parts: &Vec<String>) -> (r: String)
    ensures
        r@ == join_slash(encoded_parts(parts@)),
{
    let mut out = String::new();
    let mut i: usize = 0;
    while i < parts.len()
        invariant
            i <= parts.len(),
            out@ == join_slash(encoded_parts(parts@.subrange(0, i as int))),
        decreases parts.len() - i,
    {
        let e = encode(parts[i].as_str());
        proof {
            let sub = encoded_parts(parts@.subrange(0, i + 1));
            assert(sub.drop_last() =~= encoded_parts(parts@.subrange(0, i as int)));
            assert(sub.last() == e@);
        }
        let ghost prev = out@;
        proof {
            reveal_strlit("/");
        }
        assert("/"@ =~= seq!['/']);
        if i > 0 {
            out.append("/");
        }
        out.append(e.as_str());
        proof {
            let sub = encoded_parts(parts@.subrange(0, i + 1));
            if i == 0 {
                assert(out@ =~= sub[0]);
            } else {
                assert(out@ =~= prev + seq!['/'] + sub.last());
            }
        }
        i = i + 1;
    }
    assert(parts@.subrange(0, parts.len() as int) =~= parts@);
    out
}

/// `path` followed by `/` and `segment`: the path of a member in the data.
pub fn child_path(path: &str, segment: &str) -> (r: String)
    ensures
        r@ == path@ + seq!['/'] + segment@,
{
    proof {
        reveal_strlit("/");
    }
    let mut out = path.to_string();
    out.append("/");
    out.append(segment);
    out
}

/// The decimal digits of `n`.
pub open spec fn decimal(n: nat) -> Seq<char>
    decreases n,
{
    if n < 10 {
        seq![digit_char(n)]
    } else {
        decimal(n / 10) + seq![digit_char(n % 10)]
    }
}

pub open spec fn digit_char(d: nat) -> char {
    if d == 0 {
        '0'
    } else if d == 1 {
        '1'
    } else if d == 2 {
        '2'
    } else if d == 3 {
        '3'
    } else if d == 4 {
        '4'
    } else if d == 5 {
        '5'
    } else if d == 6 {
        '6'
    } else if d == 7 {
        '7'
    } else if d == 8 {
        '8'
    } else {
        '9'
    }
}

fn digit_str(d: usize) -> (r: &'static str)
    requires
        d < 10,
    ensures
        r@ == seq![digit_char(d as nat)],
{
    proof {
        reveal_strlit("0");
        reveal_strlit("1");
        reveal_strlit("2");
        reveal_strlit("3");
        reveal_strlit("4");
        reveal_strlit("5");
        reveal_strlit("6");
        reveal_strlit("7");
        reveal_strlit("8");
        reveal_strlit("9");
    }
    if d == 0 {
        "0"
    } else if d == 1 {
        "1"
    } else if d == 2 {
        "2"
    } else if d == 3 {
        "3"
    } else if d == 4 {
        "4"
    } else if d == 5 {
        "5"
    } else if d == 6 {
        "6"
    } else if d == 7 {
        "7"
    } else if d == 8 {
        "8"
    } else {
        "9"
    }
}

/// The decimal text of an index.
pub fn index_string(n: usize) -> (r: String)
    ensures
        r@ == decimal(n as nat),
    decreases n,
{
    if n < 10 {
        digit_str(n).to_string()
    } else {
        let mut head = index_string(n / 10);
        head.append(digit_str(n % 10));
        head
    }
}

/// The URL `u` without its fragment.
pub open spec fn url_base(u: Seq<char>) -> Seq<char> {
    match char_pos(u, '#') {
        Some(p) => u.subrange(0, p),
        None => u,
    }
}

/// The fragment of the URL `u`: what follows its first `#`.
pub open spec fn url_fragment(u: Seq<char>) -> Option<Seq<char>> {
    match char_pos(u, '#') {
        Some(p) => Some(u.subrange(p + 1, u.len() as int)),
        None => None,
    }
}

/// The part of a named fragment before its first `/`: the anchor name.
pub open spec fn anchor_name(f: Seq<char>) -> Seq<char> {
    match char_pos(f, '/') {
        Some(q) => f.subrange(0, q),
        None => f,
    }
}

/// How a reference is looked up: the key of the schema it names (the URL
/// without fragment, or with a named anchor), and the JSON pointer to follow
/// from there, if any.
pub open spec fn schema_path(u: Seq<char>) -> (Seq<char>, Option<Seq<char>>) {
    let base = url_base(u);
    match url_fragment(u) {
        Some(f) => if f.len() == 0 {
            (base, None)
        } else if f[0] == '/' {
            (base, Some(f))
        } else {
            match char_pos(f, '/') {
                Some(q) => (base + seq!['#'] + f.subrange(0, q), Some(f.subrange(q, f.len() as int))),
                None => (base + seq!['#'] + f, None),
            }
        },
        None => (base, None),
    }
}

/// `u` with its fragment replaced by the pointer `f` (one leading `/` of `f`
/// is dropped). A named anchor of `u` is kept in front of the pointer.
pub open spec fn altered_url(u: Seq<char>, f: Seq<char>) -> Seq<char> {
    let norm = if f.len() > 0 && f[0] == '/' {
        f.drop_first()
    } else {
        f
    };
    let frag = match url_fragment(u) {
        Some(g) => if g.len() > 0 && g[0] != '/' {
            anchor_name(g) + seq!['/'] + norm
        } else {
            seq!['/'] + norm
        },
        None => seq!['/'] + norm,
    };
    url_base(u) + seq!['#'] + frag
}

/// Splits a URL at its first `#`.
pub fn split_fragment(u: &str) -> (r: (String, Option<String>))
    ensures
        r.0@ == url_base(u@),
        r.1 is Some <==> url_fragment(u@) is Some,
        r.1 matches Some(f) ==> f@ == url_fragment(u@)->0,
{
    let n = u.unicode_len();
    match find_char(u, '#') {
        Some(p) => {
            proof {
                lemma_char_pos_from(u@, '#', 0);
            }
            (u.substring_char(0, p).to_string(), Some(u.substring_char(p + 1, n).to_string()))
        },
        None => (u.to_string(), None),
    }
}

/// The key under which the schema a URL names is registered, and the JSON
/// pointer into it.
pub fn serialize_schema_path(u: &str) -> (r: (String, Option<String>))
    ensures
        r.0@ == schema_path(u@).0,
        r.1 is Some <==> schema_path(u@).1 is Some,
        r.1 matches Some(f) ==> f@ == schema_path(u@).1->0,
{
    let (base, frag) = split_fragment(u);
    match frag {
        None => (base, None),
        Some(f) => {
            let n = f.unicode_len();
            if n == 0 {
                (base, None)
            } else if f.get_char(0) == '/' {
                (base, Some(f))
            } else {
                let mut key = base;
                proof {
                    reveal_strlit("#");
                }
                assert("#"@ =~= seq!['#']);
                key.append("#");
                match find_char(f.as_str(), '/') {
                    Some(q) => {
                        proof {
                            lemma_char_pos_from(f@, '/', 0);
                        }
                        key.append(f.substring_char(0, q));
                        (key, Some(f.substring_char(q, n).to_string()))
                    },
                    None => {
                        key.append(f.as_str());
                        (key, None)
                    },
                }
            }
        },
    }
}

/// `u` with its fragment replaced by the pointer `f`.
pub fn alter_fragment_path(u: &str, f: &str) -> (r: String)
    ensures
        r@ == altered_url(u@, f@),
{
    let fl = f.unicode_len();
    let norm: &str = if fl > 0 && f.get_char(0) == '/' {
        f.substring_char(1, fl)
    } else {
        f
    };
    assert(fl > 0 && f@[0] == '/' ==> norm@ =~= f@.drop_first());
    proof {
        reveal_strlit("#");
        reveal_strlit("/");
    }
    assert("#"@ =~= seq!['#']);
    assert("/"@ =~= seq!['/']);
    let (base, frag) = split_fragment(u);
    let mut out = base;
    out.append("#");
    match frag {
        Some(g) => {
            let gl = g.unicode_len();
            if gl > 0 && g.get_char(0) != '/' {
                match find_char(g.as_str(), '/') {
                    Some(q) => {
                        proof {
                            lemma_char_pos_from(g@, '/', 0);
                        }
                        out.append(g.substring_char(0, q));
                    },
                    None => {
                        out.append(g.as_str());
                    },
                }
            }
        },
        None => {},
    }
    out.append("/");
    out.append(norm);
    out
}

/// The pieces of `s` between its `/` characters (one piece when it has none).
pub open spec fn split_slash(s: Seq<char>) -> Seq<Seq<char>>
    decreases s.len(),
{
    match char_pos(s, '/') {
        Some(p) => if 0 <= p < s.len() {
            seq![s.subrange(0, p)] + split_slash(s.subrange(p + 1, s.len() as int))
        } else {
            seq![s]
        },
        None => seq![s],
    }
}

/// The pieces of `s` between its `/` characters.
pub fn split_on_slash(s: &str) -> (r: Vec<String>)
    ensures
        r@.map_values(|p: String| p@) == split_slash(s@),
{
    let mut parts: Vec<String> = Vec::new();
    let mut rest: String = s.to_string();
    loop
        invariant
            parts@.map_values(|p: String| p@) + split_slash(rest@) == split_slash(s@),
        decreases rest@.len(),
    {
        let n = rest.unicode_len();
        match find_char(rest.as_str(), '/') {
            Some(p) => {
                proof {
                    lemma_char_pos_from(rest@, '/', 0);
                }
                let head = rest.substring_char(0, p).to_string();
                let tail = rest.substring_char(p + 1, n).to_string();
                let ghost old_parts = parts@;
                parts.push(head);
                proof {
                    assert(parts@.map_values(|p: String| p@) =~= old_parts.map_values(
                        |p: String| p@,
                    ).push(head@));
                    assert(split_slash(rest@) == seq![head@] + split_slash(tail@));
                    assert(parts@.map_values(|p: String| p@) + split_slash(tail@) =~= old_parts.map_values(
                        |p: String| p@,
                    ) + split_slash(rest@));
                }
                rest = tail;
            },
            None => {
                let ghost old_parts = parts@;
                let ghost last = rest@;
                parts.push(rest);
                proof {
                    assert(split_slash(last) == seq![last]);
                    assert(parts@.map_values(|p: String| p@) =~= old_parts.map_values(
                        |p: String| p@,
                    ) + seq![last]);
                }
                return parts;
            },
        }
    }
}

} // verus!
