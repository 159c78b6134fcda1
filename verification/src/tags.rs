use vstd::prelude::*;

verus! {

/// The characters that separate tokens in a space-delimited tag string:
/// the Unicode whitespace characters (the White_Space property).
pub open spec fn is_space(c: char) -> bool {
    c == ' ' || c == '\t' || c == '\n' || c == '\r' || c == '\u{b}' || c == '\u{c}'
        || c == '\u{85}' || c == '\u{a0}' || c == '\u{1680}' || (c as u32 >= 0x2000 && c as u32
        <= 0x200a) || c == '\u{2028}' || c == '\u{2029}' || c == '\u{202f}' || c == '\u{205f}'
        || c == '\u{3000}'
}

/// Decides whether a character separates tokens in a tag string.
fn is_space_char(c: char) -> (r: bool)
    ensures
        r == is_space(c),
{
    c == ' ' || c == '\t' || c == '\n' || c == '\r' || c == '\u{b}' || c == '\u{c}' || c == '\u{85}'
        || c == '\u{a0}' || c == '\u{1680}' || (c as u32 >= 0x2000 && c as u32 <= 0x200a) || c
        == '\u{2028}' || c == '\u{2029}' || c == '\u{202f}' || c == '\u{205f}' || c == '\u{3000}'
}

/// The maximal runs of non-separator characters in `s`, in order.
pub open spec fn tokens_of(s: Seq<char>) -> Seq<Seq<char>>
    decreases s.len(),
{
    if s.len() == 0 {
        Seq::empty()
    } else if is_space(s[0]) {
        tokens_of(s.drop_first())
    } else {
        let rest = tokens_of(s.drop_first());
        if s.len() > 1 && !is_space(s[1]) {
            seq![seq![s[0]] + rest[0]] + rest.drop_first()
        } else {
            seq![seq![s[0]]] + rest
        }
    }
}

/// `k` is the position of the one and only `:` in `t`, with text on each
/// side: neither the first nor the last character.
pub open spec fn colon_only_at(t: Seq<char>, k: int) -> bool {
    0 < k && k + 1 < t.len() && t[k] == ':' && (forall|j: int|
        0 <= j < t.len() && j != k ==> t[j] != ':')
}

/// A token decodes to a tag pair exactly when it holds exactly one `:` and
/// non-empty text on each side of it.
pub open spec fn is_pair(t: Seq<char>) -> bool {
    exists|k: int| colon_only_at(t, k)
}

/// The position of the one `:` of a pair token.
pub open spec fn colon_at(t: Seq<char>) -> int {
    choose|k: int| colon_only_at(t, k)
}

/// The text before the `:` of a pair token.
pub open spec fn key_of(t: Seq<char>) -> Seq<char> {
    t.take(colon_at(t))
}

/// The text after the `:` of a pair token.
pub open spec fn value_of(t: Seq<char>) -> Seq<char> {
    t.skip(colon_at(t) + 1)
}

/// The tag pairs among `ts`, decoded in order; tokens that are not pairs are dropped.
pub open spec fn pairs_of_tokens(ts: Seq<Seq<char>>) -> Seq<(Seq<char>, Seq<char>)>
    decreases ts.len(),
{
    if ts.len() == 0 {
        Seq::empty()
    } else {
        let head = pairs_of_tokens(ts.drop_last());
        if is_pair(ts.last()) {
            head.push((key_of(ts.last()), value_of(ts.last())))
        } else {
            head
        }
    }
}

/// The ordered tag pairs decoded from a space-delimited `key:value` string.
pub open spec fn parse_tags_spec(s: Seq<char>) -> Seq<(Seq<char>, Seq<char>)> {
    pairs_of_tokens(tokens_of(s))
}

/// The mapping that an ordered pair sequence denotes: a later pair with the
/// same key overwrites an earlier one.
pub open spec fn map_of_pairs(ps: Seq<(Seq<char>, Seq<char>)>) -> Map<Seq<char>, Seq<char>>
    decreases ps.len(),
{
    if ps.len() == 0 {
        Map::empty()
    } else {
        map_of_pairs(ps.drop_last()).insert(ps.last().0, ps.last().1)
    }
}

/// A mapping from tag names to tag values, kept as the ordered pair list the
/// decoder produced; a later pair with the same key overwrites an earlier one.
#[derive(Debug)]
pub struct TagMap {
    pairs: Vec<(String, String)>,
}

impl View for TagMap {
    type V = Seq<(Seq<char>, Seq<char>)>;

    closed spec fn view(&self) -> Seq<(Seq<char>, Seq<char>)> {
        self.pairs@.map_values(|p: (String, String)| (p.0@, p.1@))
    }
}

/// If no pair at or after position `i` has key `k`, the mapping binds `k`
/// exactly as the first `i` pairs alone do.
proof fn lemma_map_of_pairs_no_tail(ps: Seq<(Seq<char>, Seq<char>)>, i: int, k: Seq<char>)
    requires
        0 <= i <= ps.len(),
        forall|j: int| i <= j < ps.len() ==> ps[j].0 != k,
    ensures
        map_of_pairs(ps).dom().contains(k) == map_of_pairs(ps.take(i)).dom().contains(k),
        map_of_pairs(ps).dom().contains(k) ==> map_of_pairs(ps)[k] == map_of_pairs(ps.take(i))[k],
    decreases ps.len() - i,
{
    if i == ps.len() {
        assert(ps.take(i) =~= ps);
    } else {
        lemma_map_of_pairs_no_tail(ps, i + 1, k);
        assert(ps.take(i + 1).drop_last() =~= ps.take(i));
        assert(ps.take(i + 1).last() == ps[i]);
    }
}

impl TagMap {
    /// The mapping this pair list denotes.
    pub open spec fn as_map(&self) -> Map<Seq<char>, Seq<char>> {
        map_of_pairs(self@)
    }

    /// An empty mapping.
    pub fn new() -> (r: TagMap)
        ensures
            r@ == Seq::<(Seq<char>, Seq<char>)>::empty(),
    {
        TagMap { pairs: Vec::new() }
    }

    /// How many pairs the mapping holds, overwritten ones included.
    pub fn len(&self) -> (n: usize)
        ensures
            n == self@.len(),
    {
        self.pairs.len()
    }

    /// The pair at position `i`, in decoding order.
    pub fn pair_at(&self, i: usize) -> (r: (&String, &String))
        requires
            i < self@.len(),
        ensures
            r.0@ == self@[i as int].0,
            r.1@ == self@[i as int].1,
    {
        (&self.pairs[i].0, &self.pairs[i].1)
    }

    /// Binds `k` to `v`, overwriting any earlier binding of `k`.
    pub fn insert(&mut self, k: String, v: String)
        ensures
            final(self)@ == old(self)@.push((k@, v@)),
            final(self).as_map() == old(self).as_map().insert(k@, v@),
    {
        let ghost prior = self@;
        self.pairs.push((k, v));
        proof {
            assert(self@ =~= prior.push((k@, v@)));
            assert(self@.drop_last() =~= prior);
        }
    }

    /// The value bound to `k`, if any: the value of the last pair whose key is `k`.
    pub fn get(&self, k: &str) -> (r: Option<&String>)
        ensures
            match r {
                Some(v) => self.as_map().dom().contains(k@) && v@ == self.as_map()[k@],
                None => !self.as_map().dom().contains(k@),
            },
    {
        let mut i: usize = self.pairs.len();
        proof {
            assert(self@.len() == self.pairs@.len());
        }
        while i > 0
            invariant
                i <= self@.len(),
                self@.len() == self.pairs@.len(),
                forall|j: int| i <= j < self@.len() ==> self@[j].0 != k@,
            decreases i,
        {
            i = i - 1;
            if str_eq(self.pairs[i].0.as_str(), k) {
                proof {
                    assert(self@[i as int].0 == k@);
                    lemma_map_of_pairs_no_tail(self@, i as int + 1, k@);
                    assert(self@.take(i as int + 1).drop_last() =~= self@.take(i as int));
                    assert(self@.take(i as int + 1).last() == self@[i as int]);
                }
                return Some(&self.pairs[i].1);
            }
            proof {
                assert(self@[i as int].0 == self.pairs@[i as int].0@);
            }
        }
        proof {
            lemma_map_of_pairs_no_tail(self@, 0, k@);
            assert(self@.take(0) =~= Seq::<(Seq<char>, Seq<char>)>::empty());
        }
        None
    }
}

/// Character-for-character equality of two string slices.
pub fn str_eq(a: &str, b: &str) -> (r: bool)
    ensures
        r == (a@ == b@),
{
    let la = a.unicode_len();
    let lb = b.unicode_len();
    if la != lb {
        return false;
    }
    let mut i: usize = 0;
    while i < la
        invariant
            la == a@.len(),
            la == b@.len(),
            i <= la,
            forall|j: int| 0 <= j < i ==> a@[j] == b@[j],
        decreases la - i,
    {
        if a.get_char(i) != b.get_char(i) {
            return false;
        }
        i += 1;
    }
    proof {
        assert(a@ =~= b@);
    }
    true
}

/// Splits a token into its tag pair, or reports that it is not one.
fn split_pair(t: &str) -> (r: Option<(String, String)>)
    ensures
        match r {
            Some(p) => is_pair(t@) && p.0@ == key_of(t@) && p.1@ == value_of(t@),
            None => !is_pair(t@),
        },
{
    let len = t.unicode_len();
    let mut count: usize = 0;
    let mut fc: usize = 0;
    let mut i: usize = 0;
    while i < len
        invariant
            len == t@.len(),
            i <= len,
            count <= i,
            count == 0 ==> forall|j: int| 0 <= j < i ==> t@[j] != ':',
            count == 1 ==> fc < i && t@[fc as int] == ':' && (forall|j: int|
                0 <= j < i && j != fc ==> t@[j] != ':'),
            count >= 2 ==> exists|j1: int, j2: int|
                0 <= j1 < j2 < i && t@[j1] == ':' && t@[j2] == ':',
        decreases len - i,
    {
        if t.get_char(i) == ':' {
            if count == 0 {
                fc = i;
            }
            count += 1;
        }
        i += 1;
    }
    if count == 1 && fc > 0 && fc + 1 < len {
        proof {
            assert(colon_only_at(t@, fc as int));
            assert(is_pair(t@));
            assert(colon_only_at(t@, colon_at(t@)));
            assert(colon_at(t@) == fc as int);
        }
        let k = t.substring_char(0, fc).to_owned();
        let v = t.substring_char(fc + 1, len).to_owned();
        proof {
            assert(k@ =~= key_of(t@));
            assert(v@ =~= value_of(t@));
        }
        Some((k, v))
    } else {
        proof {
            if is_pair(t@) {
                let k = colon_at(t@);
                assert(colon_only_at(t@, k));
                if count == 1 {
                    assert(k == fc as int);
                } else if count >= 2 {
                    let (j1, j2) = choose|j1: int, j2: int|
                        0 <= j1 < j2 < len && t@[j1] == ':' && t@[j2] == ':';
                    assert(j1 != k || j2 != k);
                }
            }
        }
        None
    }
}

/// The first token of a string that starts with `j` non-separator characters
/// followed by a separator or the end is exactly that prefix.
proof fn lemma_token_head(s: Seq<char>, j: int)
    requires
        0 < j <= s.len(),
        forall|k: int| 0 <= k < j ==> !is_space(s[k]),
        j < s.len() ==> is_space(s[j]),
    ensures
        tokens_of(s) == seq![s.take(j)] + tokens_of(s.skip(j)),
    decreases j,
{
    if j == 1 {
        assert(s.take(1) =~= seq![s[0]]);
        assert(s.drop_first() =~= s.skip(1));
        assert(tokens_of(s) =~= seq![s.take(1)] + tokens_of(s.skip(1)));
    } else {
        assert(!is_space(s[1]));
        let rest = tokens_of(s.drop_first());
        assert(s.drop_first() =~= s.skip(1));
        lemma_token_head(s.skip(1), j - 1);
        assert(rest == seq![s.skip(1).take(j - 1)] + tokens_of(s.skip(1).skip(j - 1)));
        assert(seq![s[0]] + s.skip(1).take(j - 1) =~= s.take(j));
        assert(s.skip(1).skip(j - 1) =~= s.skip(j));
        assert(rest.drop_first() =~= tokens_of(s.skip(j)));
        assert(tokens_of(s) =~= seq![s.take(j)] + tokens_of(s.skip(j)));
    }
}

/// Decodes a space-delimited `key:value` string into a tag mapping; tokens
/// that do not hold exactly one `:` with non-empty text on each side are
/// dropped without error.
pub fn parse_tags(s: &str) -> (r: TagMap)
    ensures
        r@ == parse_tags_spec(s@),
{
    let len = s.unicode_len();
    let mut r = TagMap::new();
    let ghost mut done: Seq<Seq<char>> = Seq::empty();
    let mut i: usize = 0;
    proof {
        assert(s@.skip(0) =~= s@);
        assert(done + tokens_of(s@) =~= tokens_of(s@));
    }
    while i < len
        invariant
            len == s@.len(),
            i <= len,
            tokens_of(s@) == done + tokens_of(s@.skip(i as int)),
            r@ == pairs_of_tokens(done),
        decreases len - i,
    {
        let c = s.get_char(i);
        if is_space_char(c) {
            proof {
                assert(s@.skip(i as int).drop_first() =~= s@.skip(i as int + 1));
            }
            i += 1;
        } else {
            let mut j: usize = i + 1;
            while j < len && !is_space_char(s.get_char(j))
                invariant
                    len == s@.len(),
                    i < j <= len,
                    forall|k: int| i <= k < j ==> !is_space(s@[k]),
                decreases len - j,
            {
                j += 1;
            }
            let tok = s.substring_char(i, j);
            proof {
                let tail = s@.skip(i as int);
                assert(forall|k: int| 0 <= k < j - i ==> !is_space(tail[k]));
                lemma_token_head(tail, j - i);
                assert(tail.take(j - i) =~= tok@);
                assert(tail.skip(j - i) =~= s@.skip(j as int));
                assert(tokens_of(s@) == done + (seq![tok@] + tokens_of(s@.skip(j as int))));
                assert(done + (seq![tok@] + tokens_of(s@.skip(j as int))) =~= done.push(tok@)
                    + tokens_of(s@.skip(j as int)));
                assert(done.push(tok@).drop_last() =~= done);
            }
            match split_pair(tok) {
                Some(p) => {
                    r.insert(p.0, p.1);
                }
                None => {}
            }
            proof {
                done = done.push(tok@);
            }
            i = j;
        }
    }
    proof {
        assert(s@.skip(len as int) =~= Seq::<char>::empty());
        assert(tokens_of(s@) =~= done);
    }
    r
}

/// Every pair token contributes its decoded pair to the pair list.
proof fn lemma_pairs_has_token(ts: Seq<Seq<char>>, i: int)
    requires
        0 <= i < ts.len(),
        is_pair(ts[i]),
    ensures
        exists|p: int|
            0 <= p < pairs_of_tokens(ts).len() && pairs_of_tokens(ts)[p] == (key_of(ts[i]), value_of(
                ts[i],
            )),
    decreases ts.len(),
{
    let head = pairs_of_tokens(ts.drop_last());
    if i == ts.len() - 1 {
        assert(ts.last() == ts[i]);
        assert(pairs_of_tokens(ts)[head.len() as int] == (key_of(ts[i]), value_of(ts[i])));
    } else {
        assert(ts.drop_last()[i] == ts[i]);
        lemma_pairs_has_token(ts.drop_last(), i);
        let p = choose|p: int|
            0 <= p < head.len() && head[p] == (key_of(ts[i]), value_of(ts[i]));
        assert(pairs_of_tokens(ts)[p] == (key_of(ts[i]), value_of(ts[i])));
    }
}

/// Every pair in the pair list comes from some pair token.
proof fn lemma_pair_from_token(ts: Seq<Seq<char>>, p: int)
    requires
        0 <= p < pairs_of_tokens(ts).len(),
    ensures
        exists|j: int|
            0 <= j < ts.len() && is_pair(ts[j]) && (key_of(ts[j]), value_of(ts[j]))
                == pairs_of_tokens(ts)[p],
    decreases ts.len(),
{
    let head = pairs_of_tokens(ts.drop_last());
    if p < head.len() {
        lemma_pair_from_token(ts.drop_last(), p);
        let j = choose|j: int|
            0 <= j < ts.drop_last().len() && is_pair(ts.drop_last()[j]) && (key_of(
                ts.drop_last()[j],
            ), value_of(ts.drop_last()[j])) == head[p];
        assert(ts.drop_last()[j] == ts[j]);
        assert(pairs_of_tokens(ts)[p] == head[p]);
    } else {
        assert(is_pair(ts.last()));
        assert(ts.last() == ts[ts.len() - 1]);
        assert(pairs_of_tokens(ts)[p] == (key_of(ts.last()), value_of(ts.last())));
    }
}

/// The mapping binds the key of every pair, and what it binds it to is the
/// value of some pair with that key.
proof fn lemma_map_binds(ps: Seq<(Seq<char>, Seq<char>)>, i: int)
    requires
        0 <= i < ps.len(),
    ensures
        map_of_pairs(ps).dom().contains(ps[i].0),
        exists|j: int|
            0 <= j < ps.len() && ps[j].0 == ps[i].0 && ps[j].1 == map_of_pairs(ps)[ps[i].0],
    decreases ps.len(),
{
    let last = ps.last();
    if ps[i].0 == last.0 {
        assert(ps[ps.len() - 1].0 == ps[i].0 && ps[ps.len() - 1].1 == map_of_pairs(ps)[ps[i].0]);
    } else {
        assert(ps.drop_last()[i] == ps[i]);
        lemma_map_binds(ps.drop_last(), i);
        let j = choose|j: int|
            0 <= j < ps.drop_last().len() && ps.drop_last()[j].0 == ps[i].0 && ps.drop_last()[j].1
                == map_of_pairs(ps.drop_last())[ps[i].0];
        assert(ps[j].0 == ps[i].0 && ps[j].1 == map_of_pairs(ps)[ps[i].0]);
    }
}

/// Law: every whitespace-separated token that holds exactly one `:` with
/// non-empty text on each side yields an entry in the decoded tag mapping: the
/// token's key is bound, and the value it is bound to is the value of a token
/// with that same key (the last such token, when several share the key).
pub proof fn lemma_tag_entry(s: Seq<char>, i: int)
    requires
        0 <= i < tokens_of(s).len(),
        is_pair(tokens_of(s)[i]),
    ensures
        map_of_pairs(parse_tags_spec(s)).dom().contains(key_of(tokens_of(s)[i])),
        exists|j: int|
            0 <= j < tokens_of(s).len() && is_pair(tokens_of(s)[j]) && key_of(tokens_of(s)[j])
                == key_of(tokens_of(s)[i]) && value_of(tokens_of(s)[j]) == map_of_pairs(
                parse_tags_spec(s),
            )[key_of(tokens_of(s)[i])],
{
    let ts = tokens_of(s);
    let ps = parse_tags_spec(s);
    lemma_pairs_has_token(ts, i);
    let p = choose|p: int| 0 <= p < ps.len() && ps[p] == (key_of(ts[i]), value_of(ts[i]));
    lemma_map_binds(ps, p);
    let q = choose|q: int| 0 <= q < ps.len() && ps[q].0 == ps[p].0 && ps[q].1 == map_of_pairs(ps)[ps[p].0];
    lemma_pair_from_token(ts, q);
    let j = choose|j: int|
        0 <= j < ts.len() && is_pair(ts[j]) && (key_of(ts[j]), value_of(ts[j])) == ps[q];
    assert(key_of(ts[j]) == key_of(ts[i]) && value_of(ts[j]) == map_of_pairs(ps)[key_of(ts[i])]);
}

/// `t` is the token `k:v`: exactly `k`, one `:`, then `v`, with both sides
/// free of `:`.
pub open spec fn is_kv_token(t: Seq<char>, k: Seq<char>, v: Seq<char>) -> bool {
    t == k + seq![':'] + v && !k.contains(':') && !v.contains(':')
}

/// A token is `k:v` with both sides non-empty exactly when it is a pair token
/// with key `k` and value `v`.
proof fn lemma_kv_token_is_pair(t: Seq<char>, k: Seq<char>, v: Seq<char>)
    ensures
        (is_kv_token(t, k, v) && k.len() > 0 && v.len() > 0) <==> (is_pair(t) && key_of(t) == k
            && value_of(t) == v),
{
    if is_kv_token(t, k, v) && k.len() > 0 && v.len() > 0 {
        let n = k.len() as int;
        assert(0 < n && n + 1 < t.len());
        assert(t[n] == ':');
        assert(forall|j: int| 0 <= j < t.len() && j != n ==> t[j] != ':') by {
            assert(forall|j: int| 0 <= j < n ==> t[j] == k[j]);
            assert(forall|j: int| n < j < t.len() ==> t[j] == v[j - n - 1]);
        }
        assert(colon_only_at(t, n));
        assert(is_pair(t));
        assert(colon_only_at(t, colon_at(t)));
        assert(colon_at(t) == n);
        assert(key_of(t) =~= k);
        assert(value_of(t) =~= v);
    }
    if is_pair(t) && key_of(t) == k && value_of(t) == v {
        let n = colon_at(t);
        assert(colon_only_at(t, n));
        assert(t =~= k + seq![':'] + v);
        assert(!k.contains(':')) by {
            assert(forall|j: int| 0 <= j < k.len() ==> k[j] == t[j] && t[j] != ':');
        }
        assert(!v.contains(':')) by {
            assert(forall|j: int| 0 <= j < v.len() ==> v[j] == t[n + 1 + j] && t[n + 1 + j] != ':');
        }
        assert(k.len() > 0 && v.len() > 0);
    }
}

/// The mapping a token list decodes to binds `k` to `v` exactly when some pair
/// token has key `k` and value `v` and no later pair token has the key `k`.
proof fn lemma_tokens_mapping(ts: Seq<Seq<char>>, k: Seq<char>, v: Seq<char>)
    ensures
        map_of_pairs(pairs_of_tokens(ts)).contains_pair(k, v) <==> exists|i: int|
            0 <= i < ts.len() && is_pair(#[trigger] ts[i]) && key_of(ts[i]) == k && value_of(ts[i])
                == v && (forall|j: int|
                i < j < ts.len() && is_pair(#[trigger] ts[j]) ==> key_of(ts[j]) != k),
    decreases ts.len(),
{
    if ts.len() == 0 {
    } else {
        let ts0 = ts.drop_last();
        let last = ts.last();
        let n = ts.len() - 1;
        lemma_tokens_mapping(ts0, k, v);
        let m0 = map_of_pairs(pairs_of_tokens(ts0));
        let m = map_of_pairs(pairs_of_tokens(ts));
        assert(forall|i: int| 0 <= i < n ==> ts0[i] == ts[i]);
        if is_pair(last) {
            assert(pairs_of_tokens(ts) == pairs_of_tokens(ts0).push(
                (key_of(last), value_of(last)),
            ));
            assert(pairs_of_tokens(ts).drop_last() =~= pairs_of_tokens(ts0));
            assert(m == m0.insert(key_of(last), value_of(last)));
            if m.contains_pair(k, v) {
                if k == key_of(last) {
                    assert(v == value_of(last));
                    assert(is_pair(ts[n]) && key_of(ts[n]) == k && value_of(ts[n]) == v
                        && (forall|j: int|
                        n < j < ts.len() && is_pair(#[trigger] ts[j]) ==> key_of(ts[j]) != k));
                } else {
                    assert(m0.contains_pair(k, v));
                    let i = choose|i: int|
                        0 <= i < ts0.len() && is_pair(#[trigger] ts0[i]) && key_of(ts0[i]) == k
                            && value_of(ts0[i]) == v && (forall|j: int|
                            i < j < ts0.len() && is_pair(#[trigger] ts0[j]) ==> key_of(ts0[j])
                                != k);
                    assert(is_pair(ts[i]) && key_of(ts[i]) == k && value_of(ts[i]) == v
                        && (forall|j: int|
                        i < j < ts.len() && is_pair(#[trigger] ts[j]) ==> key_of(ts[j]) != k));
                }
            }
            if exists|i: int|
                0 <= i < ts.len() && is_pair(#[trigger] ts[i]) && key_of(ts[i]) == k && value_of(
                    ts[i],
                ) == v && (forall|j: int|
                    i < j < ts.len() && is_pair(#[trigger] ts[j]) ==> key_of(ts[j]) != k) {
                let i = choose|i: int|
                    0 <= i < ts.len() && is_pair(#[trigger] ts[i]) && key_of(ts[i]) == k
                        && value_of(ts[i]) == v && (forall|j: int|
                        i < j < ts.len() && is_pair(#[trigger] ts[j]) ==> key_of(ts[j]) != k);
                if i == n {
                    assert(m.contains_pair(k, v));
                } else {
                    assert(key_of(ts[n]) != k);
                    assert(is_pair(ts0[i]) && key_of(ts0[i]) == k && value_of(ts0[i]) == v
                        && (forall|j: int|
                        i < j < ts0.len() && is_pair(#[trigger] ts0[j]) ==> key_of(ts0[j]) != k));
                    assert(m0.contains_pair(k, v));
                    assert(m.contains_pair(k, v));
                }
            }
        } else {
            assert(pairs_of_tokens(ts) == pairs_of_tokens(ts0));
            if m.contains_pair(k, v) {
                let i = choose|i: int|
                    0 <= i < ts0.len() && is_pair(#[trigger] ts0[i]) && key_of(ts0[i]) == k
                        && value_of(ts0[i]) == v && (forall|j: int|
                        i < j < ts0.len() && is_pair(#[trigger] ts0[j]) ==> key_of(ts0[j]) != k);
                assert(is_pair(ts[i]) && key_of(ts[i]) == k && value_of(ts[i]) == v && (forall|
                    j: int,
                |
                    i < j < ts.len() && is_pair(#[trigger] ts[j]) ==> key_of(ts[j]) != k));
            }
            if exists|i: int|
                0 <= i < ts.len() && is_pair(#[trigger] ts[i]) && key_of(ts[i]) == k && value_of(
                    ts[i],
                ) == v && (forall|j: int|
                    i < j < ts.len() && is_pair(#[trigger] ts[j]) ==> key_of(ts[j]) != k) {
                let i = choose|i: int|
                    0 <= i < ts.len() && is_pair(#[trigger] ts[i]) && key_of(ts[i]) == k
                        && value_of(ts[i]) == v && (forall|j: int|
                        i < j < ts.len() && is_pair(#[trigger] ts[j]) ==> key_of(ts[j]) != k);
                assert(i != n);
                assert(is_pair(ts0[i]) && key_of(ts0[i]) == k && value_of(ts0[i]) == v && (forall|
                    j: int,
                |
                    i < j < ts0.len() && is_pair(#[trigger] ts0[j]) ==> key_of(ts0[j]) != k));
                assert(m0.contains_pair(k, v));
            }
        }
    }
}

/// Law: the decoded mapping binds `k` to `v` exactly when some
/// whitespace-separated token is `k:v` with both sides non-empty and free of
/// `:`, and no later such token shares the key `k` — of several tokens with
/// one key, the rightmost one's value is the one kept.
pub proof fn lemma_tag_mapping(s: Seq<char>, k: Seq<char>, v: Seq<char>)
    ensures
        map_of_pairs(parse_tags_spec(s)).contains_pair(k, v) <==> exists|i: int|
            0 <= i < tokens_of(s).len() && is_kv_token(#[trigger] tokens_of(s)[i], k, v) && k.len()
                > 0 && v.len() > 0 && (forall|j: int|
                i < j < tokens_of(s).len() && is_pair(#[trigger] tokens_of(s)[j]) ==> key_of(
                    tokens_of(s)[j],
                ) != k),
{
    let ts = tokens_of(s);
    lemma_tokens_mapping(ts, k, v);
    if map_of_pairs(parse_tags_spec(s)).contains_pair(k, v) {
        let i = choose|i: int|
            0 <= i < ts.len() && is_pair(#[trigger] ts[i]) && key_of(ts[i]) == k && value_of(ts[i])
                == v && (forall|j: int|
                i < j < ts.len() && is_pair(#[trigger] ts[j]) ==> key_of(ts[j]) != k);
        lemma_kv_token_is_pair(ts[i], k, v);
        assert(is_kv_token(ts[i], k, v) && k.len() > 0 && v.len() > 0);
    }
    if exists|i: int|
        0 <= i < ts.len() && is_kv_token(#[trigger] ts[i], k, v) && k.len() > 0 && v.len() > 0 && (
        forall|j: int| i < j < ts.len() && is_pair(#[trigger] ts[j]) ==> key_of(ts[j]) != k) {
        let i = choose|i: int|
            0 <= i < ts.len() && is_kv_token(#[trigger] ts[i], k, v) && k.len() > 0 && v.len() > 0
                && (forall|j: int| i < j < ts.len() && is_pair(#[trigger] ts[j]) ==> key_of(ts[j]) != k);
        lemma_kv_token_is_pair(ts[i], k, v);
        assert(is_pair(ts[i]) && key_of(ts[i]) == k && value_of(ts[i]) == v);
    }
}

} // verus!
