//! Assembly of the JSON object body of a `post` request from `key=value`
//! pairs: JSON string escaping, collapsing of duplicate keys (the last
//! occurrence wins), and rendering of the object text.

use crate::args::KvPair;
use crate::text::digit_char;
use crate::text::push_char;
use vstd::prelude::*;
use vstd::string::StrSliceExecFns;
use vstd::string::StringExecFns;

verus! {

/// The character for a single hexadecimal digit, lower case.
pub open spec fn hex_char(d: nat) -> char {
    if d < 10 {
        digit_char(d)
    } else if d == 10 {
        'a'
    } else if d == 11 {
        'b'
    } else if d == 12 {
        'c'
    } else if d == 13 {
        'd'
    } else if d == 14 {
        'e'
    } else {
        'f'
    }
}

/// The JSON escaping of one character inside a string literal.
pub open spec fn escape_char(c: char) -> Seq<char> {
    if c == '"' {
        seq!['\\', '"']
    } else if c == '\\' {
        seq!['\\', '\\']
    } else if c == '\n' {
        seq!['\\', 'n']
    } else if c == '\r' {
        seq!['\\', 'r']
    } else if c == '\t' {
        seq!['\\', 't']
    } else if (c as u32) < 32 {
        seq!['\\', 'u', '0', '0', hex_char((c as u32 / 16) as nat), hex_char((c as u32 % 16) as nat)]
    } else {
        seq![c]
    }
}

/// The JSON escaping of a whole string.
pub open spec fn json_escape(s: Seq<char>) -> Seq<char>
    decreases s.len(),
{
    if s.len() == 0 {
        Seq::empty()
    } else {
        escape_char(s[0]) + json_escape(s.drop_first())
    }
}

/// Escaping a string one character longer escapes the added character after
/// the rest.
pub proof fn lemma_json_escape_push(s: Seq<char>, c: char)
    ensures
        json_escape(s.push(c)) == json_escape(s) + escape_char(c),
    decreases s.len(),
{
    if s.len() == 0 {
        assert(s.push(c).drop_first() =~= Seq::<char>::empty());
        assert(s.push(c)[0] == c);
        assert(json_escape(s.push(c)) == escape_char(s.push(c)[0]) + json_escape(
            s.push(c).drop_first(),
        ));
        assert(escape_char(c) + Seq::<char>::empty() =~= escape_char(c));
        assert(json_escape(s) + escape_char(c) =~= escape_char(c));
    } else {
        assert(s.push(c)[0] == s[0]);
        assert(s.push(c).drop_first() =~= s.drop_first().push(c));
        assert(json_escape(s.push(c)) == escape_char(s.push(c)[0]) + json_escape(
            s.push(c).drop_first(),
        ));
        lemma_json_escape_push(s.drop_first(), c);
        assert(escape_char(s[0]) + (json_escape(s.drop_first()) + escape_char(c)) =~= (escape_char(
            s[0],
        ) + json_escape(s.drop_first())) + escape_char(c));
    }
}

/// A JSON string literal: the escaped text between double quotes.
pub open spec fn json_string(s: Seq<char>) -> Seq<char> {
    seq!['"'] + json_escape(s) + seq!['"']
}

/// One `"key":"value"` member of a JSON object.
pub open spec fn json_member(k: Seq<char>, v: Seq<char>) -> Seq<char> {
    json_string(k) + seq![':'] + json_string(v)
}

/// The members of a JSON object, joined with commas.
pub open spec fn json_members(ps: Seq<(Seq<char>, Seq<char>)>) -> Seq<char>
    decreases ps.len(),
{
    if ps.len() == 0 {
        Seq::empty()
    } else if ps.len() == 1 {
        json_member(ps[0].0, ps[0].1)
    } else {
        json_members(ps.drop_last()) + seq![','] + json_member(ps.last().0, ps.last().1)
    }
}

/// The text of a JSON object with the given members, in the given order.
pub open spec fn json_object(ps: Seq<(Seq<char>, Seq<char>)>) -> Seq<char> {
    seq!['{'] + json_members(ps) + seq!['}']
}

/// The index of the first pair whose key is `k`, or `-1` when no pair has it.
pub open spec fn find_key(ps: Seq<(Seq<char>, Seq<char>)>, k: Seq<char>) -> int
    decreases ps.len(),
{
    if ps.len() == 0 {
        -1
    } else if ps[0].0 == k {
        0
    } else {
        let r = find_key(ps.drop_first(), k);
        if r == -1 {
            -1
        } else {
            r + 1
        }
    }
}

/// Whether some pair carries the key `k`.
pub open spec fn has_key(ps: Seq<(Seq<char>, Seq<char>)>, k: Seq<char>) -> bool {
    exists|i: int| 0 <= i < ps.len() && ps[i].0 == k
}

/// `find_key` finds the least index whose pair has key `k`, and fails exactly
/// when no pair has it.
pub proof fn lemma_find_key(ps: Seq<(Seq<char>, Seq<char>)>, k: Seq<char>)
    ensures
        find_key(ps, k) == -1 <==> !has_key(ps, k),
        find_key(ps, k) != -1 ==> 0 <= find_key(ps, k) < ps.len() && ps[find_key(ps, k)].0 == k,
        find_key(ps, k) != -1 ==> forall|j: int| 0 <= j < find_key(ps, k) ==> ps[j].0 != k,
    decreases ps.len(),
{
    if ps.len() == 0 {
    } else if ps[0].0 == k {
        assert(has_key(ps, k));
    } else {
        let rest = ps.drop_first();
        lemma_find_key(rest, k);
        if has_key(ps, k) {
            let i = choose|i: int| 0 <= i < ps.len() && ps[i].0 == k;
            assert(i != 0);
            assert(rest[i - 1].0 == k);
            assert(has_key(rest, k));
        }
        if has_key(rest, k) {
            let i = choose|i: int| 0 <= i < rest.len() && rest[i].0 == k;
            assert(ps[i + 1].0 == k);
            assert(has_key(ps, k));
        }
        if find_key(ps, k) != -1 {
            let f = find_key(rest, k);
            assert(find_key(ps, k) == f + 1);
            assert forall|j: int| 0 <= j < f + 1 implies ps[j].0 != k by {
                if j > 0 {
                    assert(rest[j - 1].0 != k);
                }
            }
        }
    }
}

/// The pairs collapsed to unique keys: keys keep the order of their first
/// occurrence, and each key keeps the value of its last occurrence.
pub open spec fn dedup_pairs(ps: Seq<(Seq<char>, Seq<char>)>) -> Seq<(Seq<char>, Seq<char>)>
    decreases ps.len(),
{
    if ps.len() == 0 {
        Seq::empty()
    } else {
        let rest = dedup_pairs(ps.drop_last());
        let p = ps.last();
        let i = find_key(rest, p.0);
        if i == -1 {
            rest.push(p)
        } else {
            rest.update(i, p)
        }
    }
}

/// The mapping that a pair list denotes: a later pair overwrites an earlier
/// one with the same key.
pub open spec fn pairs_map(ps: Seq<(Seq<char>, Seq<char>)>) -> Map<Seq<char>, Seq<char>>
    decreases ps.len(),
{
    if ps.len() == 0 {
        Map::empty()
    } else {
        pairs_map(ps.drop_last()).insert(ps.last().0, ps.last().1)
    }
}

/// Whether all pairs carry pairwise distinct keys.
pub open spec fn distinct_keys(ps: Seq<(Seq<char>, Seq<char>)>) -> bool {
    forall|i: int, j: int| 0 <= i < j < ps.len() ==> ps[i].0 != ps[j].0
}

proof fn lemma_pairs_map_update(s: Seq<(Seq<char>, Seq<char>)>, i: int, v: (Seq<char>, Seq<char>))
    requires
        0 <= i < s.len(),
        distinct_keys(s),
        s[i].0 == v.0,
    ensures
        pairs_map(s.update(i, v)) == pairs_map(s).insert(v.0, v.1),
    decreases s.len(),
{
    let t = s.update(i, v);
    if i == s.len() - 1 {
        assert(t.drop_last() =~= s.drop_last());
        assert(t.last() == v);
        assert(pairs_map(s.drop_last()).insert(v.0, s[i].1).insert(v.0, v.1) =~= pairs_map(
            s.drop_last(),
        ).insert(v.0, v.1));
    } else {
        assert(t.drop_last() =~= s.drop_last().update(i, v));
        assert(t.last() == s.last());
        assert(distinct_keys(s.drop_last())) by {
            assert forall|a: int, b: int|
                0 <= a < b < s.drop_last().len() implies s.drop_last()[a].0 != s.drop_last()[b].0 by {
                assert(s.drop_last()[a] == s[a]);
                assert(s.drop_last()[b] == s[b]);
            }
        }
        assert(s.drop_last()[i] == s[i]);
        lemma_pairs_map_update(s.drop_last(), i, v);
        assert(v.0 != s.last().0) by {
            assert(s[i].0 != s[s.len() - 1].0);
        }
        assert(pairs_map(s.drop_last()).insert(v.0, v.1).insert(s.last().0, s.last().1) =~= pairs_map(
            s.drop_last(),
        ).insert(s.last().0, s.last().1).insert(v.0, v.1));
    }
}

/// Collapsing duplicate keys keeps the mapping the pairs denote: the last
/// occurrence of a key wins, and the collapsed list carries each key once.
pub proof fn lemma_duplicate_keys_last_wins(ps: Seq<(Seq<char>, Seq<char>)>)
    ensures
        distinct_keys(dedup_pairs(ps)),
        pairs_map(dedup_pairs(ps)) == pairs_map(ps),
    decreases ps.len(),
{
    if ps.len() == 0 {
    } else {
        let rest = dedup_pairs(ps.drop_last());
        let p = ps.last();
        lemma_duplicate_keys_last_wins(ps.drop_last());
        lemma_find_key(rest, p.0);
        let i = find_key(rest, p.0);
        if i == -1 {
            let d = rest.push(p);
            assert forall|a: int, b: int| 0 <= a < b < d.len() implies d[a].0 != d[b].0 by {
                if b < rest.len() {
                    assert(d[a] == rest[a]);
                    assert(d[b] == rest[b]);
                } else {
                    assert(d[a] == rest[a]);
                    assert(d[b] == p);
                    assert(!has_key(rest, p.0));
                    assert(rest[a].0 != p.0);
                }
            }
            assert(d.drop_last() =~= rest);
            assert(d.last() == p);
            assert(pairs_map(d) == pairs_map(rest).insert(p.0, p.1));
        } else {
            let d = rest.update(i, p);
            assert(rest[i].0 == p.0);
            assert forall|a: int, b: int| 0 <= a < b < d.len() implies d[a].0 != d[b].0 by {
                assert(d[a].0 == rest[a].0);
                assert(d[b].0 == rest[b].0);
            }
            lemma_pairs_map_update(rest, i, p);
        }
    }
}

/// The views of a list of pairs, as character sequences.
pub open spec fn kv_views(s: Seq<KvPair>) -> Seq<(Seq<char>, Seq<char>)> {
    s.map_values(|p: KvPair| p@)
}

fn hex_str(d: u32) -> (r: &'static str)
    requires
        d < 16,
    ensures
        r@ == seq![hex_char(d as nat)],
{
    proof {
        reveal_strlit("0");
        reveal_strlit("1");
        reveal_strlit("2");
        reveal_strlit("3");
        reveal_strlit("4");
        reveal_strlit("5");
        reveal_strlit("6");
        reveal_strlit("7");
        reveal_strlit("8");
        reveal_strlit("9");
        reveal_strlit("a");
        reveal_strlit("b");
        reveal_strlit("c");
        reveal_strlit("d");
        reveal_strlit("e");
        reveal_strlit("f");
    }
    let r: &'static str = match d {
        0 => "0",
        1 => "1",
        2 => "2",
        3 => "3",
        4 => "4",
        5 => "5",
        6 => "6",
        7 => "7",
        8 => "8",
        9 => "9",
        10 => "a",
        11 => "b",
        12 => "c",
        13 => "d",
        14 => "e",
        _ => "f",
    };
    proof {
        assert(r@ =~= seq![hex_char(d as nat)]);
    }
    r
}

fn escape_into(out: &mut String, s: &str)
    ensures
        final(out)@ == old(out)@ + json_escape(s@),
{
    let n = s.unicode_len();
    let mut i: usize = 0;
    while i < n
        invariant
            i <= n,
            n == s@.len(),
            out@ == old(out)@ + json_escape(s@.take(i as int)),
        decreases n - i,
    {
        let c = s.get_char(i);
        let ghost before = out@;
        if c == '"' {
            proof {
                reveal_strlit("\\\"");
            }
            out.append("\\\"");
            proof {
                assert("\\\""@ =~= escape_char(c));
            }
        } else if c == '\\' {
            proof {
                reveal_strlit("\\\\");
            }
            out.append("\\\\");
            proof {
                assert("\\\\"@ =~= escape_char(c));
            }
        } else if c == '\n' {
            proof {
                reveal_strlit("\\n");
            }
            out.append("\\n");
            proof {
                assert("\\n"@ =~= escape_char(c));
            }
        } else if c == '\r' {
            proof {
                reveal_strlit("\\r");
            }
            out.append("\\r");
            proof {
                assert("\\r"@ =~= escape_char(c));
            }
        } else if c == '\t' {
            proof {
                reveal_strlit("\\t");
            }
            out.append("\\t");
            proof {
                assert("\\t"@ =~= escape_char(c));
            }
        } else {
            let x = c as u32;
            if x < 32 {
                proof {
                    reveal_strlit("\\u00");
                }
                out.append("\\u00");
                out.append(hex_str(x / 16));
                out.append(hex_str(x % 16));
                proof {
                    assert(out@ =~= before + escape_char(c));
                }
            } else {
                push_char(out, c);
                proof {
                    assert(seq![c] =~= escape_char(c));
                }
            }
        }
        proof {
            assert(out@ =~= before + escape_char(c));
            lemma_json_escape_push(s@.take(i as int), c);
            assert(s@.take(i as int).push(c) =~= s@.take(i + 1));
            assert(out@ =~= old(out)@ + json_escape(s@.take(i + 1)));
        }
        i += 1;
    }
    proof {
        assert(s@.take(n as int) =~= s@);
    }
}

fn json_string_into(out: &mut String, s: &str)
    ensures
        final(out)@ == old(out)@ + json_string(s@),
{
    proof {
        reveal_strlit("\"");
    }
    out.append("\"");
    escape_into(out, s);
    out.append("\"");
    proof {
        assert("\""@ =~= seq!['"']);
        assert(out@ =~= old(out)@ + json_string(s@));
    }
}

fn find_key_exec(out: &Vec<KvPair>, k: &str) -> (r: Option<usize>)
    ensures
        match r {
            Some(j) => j == find_key(kv_views(out@), k@),
            None => find_key(kv_views(out@), k@) == -1,
        },
{
    let ghost kvs = kv_views(out@);
    proof {
        assert(kvs.len() == out@.len());
    }
    let mut j: usize = 0;
    while j < out.len()
        invariant
            j <= out@.len(),
            kvs == kv_views(out@),
            kvs.len() == out@.len(),
            forall|a: int| 0 <= a < j ==> kvs[a].0 != k@,
        decreases out@.len() - j,
    {
        proof {
            assert(kvs[j as int] == out@[j as int]@);
        }
        if crate::text::str_eq(out[j].k.as_str(), k) {
            proof {
                lemma_find_key(kvs, k@);
                assert(has_key(kvs, k@));
                let f = find_key(kvs, k@);
                assert(f >= j) by {
                    if f < j {
                        assert(kvs[f].0 != k@);
                    }
                }
                assert(f <= j) by {
                    if f > j {
                        assert(kvs[j as int].0 != k@);
                    }
                }
            }
            return Some(j);
        }
        j += 1;
    }
    proof {
        lemma_find_key(kvs, k@);
        if has_key(kvs, k@) {
            let f = find_key(kvs, k@);
            assert(kvs[f].0 != k@);
        }
    }
    None
}

/// Collapses the pairs to unique keys, keeping first-occurrence order and the
/// last value of each key.
fn dedup(pairs: &Vec<KvPair>) -> (r: Vec<KvPair>)
    ensures
        kv_views(r@) == dedup_pairs(kv_views(pairs@)),
{
    let mut out: Vec<KvPair> = Vec::new();
    proof {
        assert(kv_views(out@) =~= dedup_pairs(kv_views(pairs@.take(0))));
    }
    let mut i: usize = 0;
    while i < pairs.len()
        invariant
            i <= pairs@.len(),
            kv_views(out@) == dedup_pairs(kv_views(pairs@.take(i as int))),
        decreases pairs@.len() - i,
    {
        let kc = pairs[i].k.clone();
        let vc = pairs[i].v.clone();
        let ghost rest = kv_views(out@);
        let ghost p = pairs@[i as int]@;
        proof {
            assert(kc@ == pairs@[i as int].k@);
            assert(vc@ == pairs@[i as int].v@);
        }
        match find_key_exec(&out, kc.as_str()) {
            Some(j) => {
                proof {
                    lemma_find_key(rest, p.0);
                }
                out[j] = KvPair { k: kc, v: vc };
                proof {
                    assert(kv_views(out@) =~= rest.update(j as int, p));
                }
            },
            None => {
                out.push(KvPair { k: kc, v: vc });
                proof {
                    assert(kv_views(out@) =~= rest.push(p));
                }
            },
        }
        proof {
            let pre = kv_views(pairs@.take(i as int));
            let post = kv_views(pairs@.take(i + 1));
            assert(post.drop_last() =~= pre);
            assert(post.last() == p);
            assert(kv_views(out@) =~= dedup_pairs(post));
        }
        i += 1;
    }
    proof {
        assert(pairs@.take(pairs@.len() as int) =~= pairs@);
    }
    out
}

/// Builds the JSON object body from the `key=value` pairs: duplicate keys
/// collapse to the last occurrence, keys keep first-occurrence order, and
/// keys and values are written as escaped JSON strings.
pub fn assemble_body(pairs: &Vec<KvPair>) -> (r: String)
    ensures
        r@ == json_object(dedup_pairs(kv_views(pairs@))),
{
    let d = dedup(pairs);
    let ghost dv = kv_views(d@);
    proof {
        reveal_strlit("{");
        reveal_strlit("}");
        reveal_strlit(",");
        reveal_strlit(":");
    }
    let mut out = "{".to_owned();
    proof {
        assert(out@ =~= seq!['{'] + json_members(dv.take(0)));
    }
    let mut i: usize = 0;
    while i < d.len()
        invariant
            i <= d@.len(),
            dv == kv_views(d@),
            dv.len() == d@.len(),
            out@ == seq!['{'] + json_members(dv.take(i as int)),
        decreases d@.len() - i,
    {
        proof {
            reveal_strlit(",");
            reveal_strlit(":");
        }
        let ghost before = out@;
        if i > 0 {
            out.append(",");
        }
        json_string_into(&mut out, d[i].k.as_str());
        out.append(":");
        json_string_into(&mut out, d[i].v.as_str());
        proof {
            assert(dv[i as int] == d@[i as int]@);
            let pre = dv.take(i as int);
            let post = dv.take(i + 1);
            assert(post.drop_last() =~= pre);
            assert(post.last() == dv[i as int]);
            if i == 0 {
                assert(out@ =~= before + json_member(dv[0].0, dv[0].1));
                assert(out@ =~= seq!['{'] + json_members(post));
            } else {
                assert(out@ =~= before + seq![','] + json_member(dv[i as int].0, dv[i as int].1));
                assert(out@ =~= seq!['{'] + json_members(post));
            }
        }
        i += 1;
    }
    out.append("}");
    proof {
        reveal_strlit("{");
        reveal_strlit("}");
        assert(dv.take(d@.len() as int) =~= dv);
        assert(out@ =~= json_object(dedup_pairs(kv_views(pairs@))));
    }
    out
}

} // verus!
