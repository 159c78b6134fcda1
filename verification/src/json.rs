use vstd::prelude::*;

verus! {

use crate::data::Data;
use crate::data::PostView;
use crate::tags::TagMap;

/// Relies on String::push: appends the given character to the end of the string.
pub assume_specification[ String::push ](s: &mut String, c: char)
    ensures
        final(s)@ == old(s)@.push(c),
;

/// The lower-case hexadecimal digit for `n` (0 to 15).
pub open spec fn hex_digit(n: int) -> char {
    if n < 10 {
        ((48 + n) as u8) as char
    } else {
        ((87 + n) as u8) as char
    }
}

/// How one character is written inside a JSON string literal: quote and
/// backslash are escaped, control characters are written as `\u00XX`, and
/// every other character stands for itself.
pub open spec fn escape_char(c: char) -> Seq<char> {
    if c == '"' {
        seq!['\\', '"']
    } else if c == '\\' {
        seq!['\\', '\\']
    } else if (c as u32) < 0x20 {
        seq!['\\', 'u', '0', '0', hex_digit(c as u32 as int / 16), hex_digit(c as u32 as int % 16)]
    } else {
        seq![c]
    }
}

/// A string's characters, escaped for a JSON string literal.
pub open spec fn escape_str(s: Seq<char>) -> Seq<char>
    decreases s.len(),
{
    if s.len() == 0 {
        Seq::empty()
    } else {
        escape_str(s.drop_last()) + escape_char(s.last())
    }
}

/// A JSON string literal.
pub open spec fn json_of_string(s: Seq<char>) -> Seq<char> {
    seq!['"'] + escape_str(s) + seq!['"']
}

/// The members of the JSON object that holds the tag pairs, in order,
/// without the surrounding braces.
pub open spec fn json_of_pairs(ps: Seq<(Seq<char>, Seq<char>)>) -> Seq<char>
    decreases ps.len(),
{
    if ps.len() == 0 {
        Seq::empty()
    } else {
        let entry = json_of_string(ps.last().0) + seq![':'] + json_of_string(ps.last().1);
        if ps.len() == 1 {
            entry
        } else {
            json_of_pairs(ps.drop_last()) + seq![','] + entry
        }
    }
}

/// One post as a JSON object.
pub open spec fn json_of_post(p: PostView) -> Seq<char> {
    "{\"href\":"@ + json_of_string(p.href) + ",\"title\":"@ + json_of_string(p.title)
        + ",\"description\":"@ + json_of_string(p.description) + ",\"tags\":{"@ + json_of_pairs(
        p.tags,
    ) + "},\"time\":"@ + json_of_string(p.time) + "}"@
}

/// The posts as the elements of a JSON array, comma separated, without the
/// surrounding brackets.
pub open spec fn json_of_posts(ps: Seq<PostView>) -> Seq<char>
    decreases ps.len(),
{
    if ps.len() == 0 {
        Seq::empty()
    } else if ps.len() == 1 {
        json_of_post(ps.last())
    } else {
        json_of_posts(ps.drop_last()) + seq![','] + json_of_post(ps.last())
    }
}

/// The whole data value as the JSON document handed to the template engine:
/// an object with the single member `posts`.
pub open spec fn json_of_data(d: Seq<PostView>) -> Seq<char> {
    "{\"posts\":["@ + json_of_posts(d) + "]}"@
}

/// The lower-case hexadecimal digit character for `n`.
fn hex_digit_char(n: u8) -> (c: char)
    requires
        n < 16,
    ensures
        c == hex_digit(n as int),
{
    if n < 10 {
        (48 + n) as char
    } else {
        (87 + n) as char
    }
}

/// Appends `s` to `out`, escaped for the inside of a JSON string literal.
fn push_escaped(out: &mut String, s: &str)
    ensures
        final(out)@ == old(out)@ + escape_str(s@),
{
    let len = s.unicode_len();
    let mut i: usize = 0;
    proof {
        assert(out@ + escape_str(s@.take(0)) =~= out@);
    }
    while i < len
        invariant
            len == s@.len(),
            i <= len,
            out@ == old(out)@ + escape_str(s@.take(i as int)),
        decreases len - i,
    {
        let c = s.get_char(i);
        proof {
            assert(s@.take(i as int + 1).drop_last() =~= s@.take(i as int));
            assert(s@.take(i as int + 1).last() == s@[i as int]);
        }
        if c == '"' {
            out.append("\\\"");
            proof {
                reveal_strlit("\\\"");
                assert("\\\""@ =~= seq!['\\', '"']);
            }
        } else if c == '\\' {
            out.append("\\\\");
            proof {
                reveal_strlit("\\\\");
                assert("\\\\"@ =~= seq!['\\', '\\']);
            }
        } else if (c as u32) < 0x20 {
            let n = c as u32;
            out.append("\\u00");
            out.push(hex_digit_char((n / 16) as u8));
            out.push(hex_digit_char((n % 16) as u8));
            proof {
                reveal_strlit("\\u00");
                assert("\\u00"@ =~= seq!['\\', 'u', '0', '0']);
                assert(out@ =~= old(out)@ + escape_str(s@.take(i as int + 1)));
            }
        } else {
            out.push(c);
        }
        proof {
            assert(out@ =~= old(out)@ + escape_str(s@.take(i as int + 1)));
        }
        i += 1;
    }
    proof {
        assert(s@.take(len as int) =~= s@);
    }
}

/// Appends `s` to `out` as a JSON string literal.
fn push_json_string(out: &mut String, s: &str)
    ensures
        final(out)@ == old(out)@ + json_of_string(s@),
{
    out.push('"');
    push_escaped(out, s);
    out.push('"');
    proof {
        assert(out@ =~= old(out)@ + json_of_string(s@));
    }
}

/// Appends the tag pairs of `t` to `out` as the members of a JSON object.
fn push_pairs(out: &mut String, t: &TagMap)
    ensures
        final(out)@ == old(out)@ + json_of_pairs(t@),
{
    let n = t.len();
    let mut i: usize = 0;
    proof {
        assert(out@ + json_of_pairs(t@.take(0)) =~= out@);
    }
    while i < n
        invariant
            n == t@.len(),
            i <= n,
            out@ == old(out)@ + json_of_pairs(t@.take(i as int)),
        decreases n - i,
    {
        if i > 0 {
            out.push(',');
        }
        let p = t.pair_at(i);
        push_json_string(out, p.0.as_str());
        out.push(':');
        push_json_string(out, p.1.as_str());
        proof {
            assert(t@.take(i as int + 1).drop_last() =~= t@.take(i as int));
            assert(t@.take(i as int + 1).last() == t@[i as int]);
            assert(out@ =~= old(out)@ + json_of_pairs(t@.take(i as int + 1)));
        }
        i += 1;
    }
    proof {
        assert(t@.take(n as int) =~= t@);
    }
}

/// Appends one post to `out` as a JSON object.
fn push_post(out: &mut String, p: &crate::data::Post)
    ensures
        final(out)@ == old(out)@ + json_of_post(p@),
{
    out.append("{\"href\":");
    push_json_string(out, p.href.as_str());
    out.append(",\"title\":");
    push_json_string(out, p.title.as_str());
    out.append(",\"description\":");
    push_json_string(out, p.description.as_str());
    out.append(",\"tags\":{");
    push_pairs(out, &p.tags);
    out.append("},\"time\":");
    push_json_string(out, p.time.as_str());
    out.append("}");
    proof {
        assert(out@ =~= old(out)@ + json_of_post(p@));
    }
}

/// Writes the fetched data as the JSON document the template engine receives.
pub fn encode_data(d: &Data) -> (r: String)
    ensures
        r@ == json_of_data(d@),
{
    let mut out = String::new();
    out.append("{\"posts\":[");
    let n = d.posts.len();
    let mut i: usize = 0;
    proof {
        assert(out@ =~= "{\"posts\":["@ + json_of_posts(d@.take(0)));
    }
    while i < n
        invariant
            n == d.posts@.len(),
            n == d@.len(),
            i <= n,
            out@ == "{\"posts\":["@ + json_of_posts(d@.take(i as int)),
        decreases n - i,
    {
        if i > 0 {
            out.push(',');
        }
        push_post(&mut out, &d.posts[i]);
        proof {
            assert(d@.take(i as int + 1).drop_last() =~= d@.take(i as int));
            assert(d@.take(i as int + 1).last() == d@[i as int]);
            assert(d@[i as int] == d.posts@[i as int]@);
            assert(out@ =~= "{\"posts\":["@ + json_of_posts(d@.take(i as int + 1)));
        }
        i += 1;
    }
    out.append("]}");
    proof {
        assert(d@.take(n as int) =~= d@);
        assert(out@ =~= json_of_data(d@));
    }
    out
}

} // verus!
