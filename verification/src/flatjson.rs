//! A small JSON reader for the request bodies the clients send: one
//! flat object whose values are strings or scalars.  String values come
//! out as text with the standard escapes decoded; scalar values
//! (numbers, `true`, `false`, `null`) only as the fact that the field
//! is not a string.  Nested objects and arrays are refused.

use vstd::prelude::*;
use crate::json::{e_lit, e_string, sp_lit, sp_string};
use crate::text::{chars_of_str, is_digit, string_from_chars};

verus! {

/// A field value: a string, or some other scalar.
pub enum FlatVal {
    S(String),
    Other,
}

/// The mathematical image of a field value.
pub ghost enum FlatV {
    S(Seq<char>),
    Other,
}

pub open spec fn flat_val_view(v: FlatVal) -> FlatV {
    match v {
        FlatVal::S(s) => FlatV::S(s@),
        FlatVal::Other => FlatV::Other,
    }
}

/// The views of a parsed field list.
pub open spec fn flat_views(ps: Seq<(String, FlatVal)>) -> Seq<(Seq<char>, FlatV)> {
    ps.map_values(|p: (String, FlatVal)| (p.0@, flat_val_view(p.1)))
}

/// JSON whitespace.
pub open spec fn is_json_ws(c: char) -> bool {
    c == ' ' || c == '\t' || c == '\n' || c == '\r'
}

/// First position at or after `i` holding something else than
/// whitespace, or the length.
pub open spec fn ws_end(s: Seq<char>, i: int) -> int
    decreases s.len() - i,
{
    if i < 0 || i >= s.len() {
        s.len() as int
    } else if is_json_ws(s[i]) {
        ws_end(s, i + 1)
    } else {
        i
    }
}

pub proof fn lemma_ws_end_at(s: Seq<char>, i: int, k: int)
    requires
        0 <= i <= k <= s.len(),
        forall|t: int| i <= t < k ==> is_json_ws(#[trigger] s[t]),
        k == s.len() || !is_json_ws(s[k]),
    ensures
        ws_end(s, i) == k,
    decreases k - i,
{
    if i < k {
        lemma_ws_end_at(s, i + 1, k);
    }
}

/// A character a scalar number token may hold.
pub open spec fn is_num_char(c: char) -> bool {
    is_digit(c) || c == '-' || c == '+' || c == '.' || c == 'e' || c == 'E'
}

/// First position at or after `i` holding no number character.
pub open spec fn num_end(s: Seq<char>, i: int) -> int
    decreases s.len() - i,
{
    if i < 0 || i >= s.len() {
        s.len() as int
    } else if is_num_char(s[i]) {
        num_end(s, i + 1)
    } else {
        i
    }
}

pub proof fn lemma_num_end_at(s: Seq<char>, i: int, k: int)
    requires
        0 <= i <= k <= s.len(),
        forall|t: int| i <= t < k ==> is_num_char(#[trigger] s[t]),
        k == s.len() || !is_num_char(s[k]),
    ensures
        num_end(s, i) == k,
    decreases k - i,
{
    if i < k {
        lemma_num_end_at(s, i + 1, k);
    }
}

/// One field value: a plain string in quotes, one of the three JSON
/// keywords, or a number token.
pub open spec fn sp_flat_value(s: Seq<char>, i: int) -> Option<(FlatV, int)> {
    if i < 0 || i >= s.len() {
        None
    } else if s[i] == '"' {
        match sp_string(s, i + 1) {
            Some((body, e)) => Some((FlatV::S(body), e + 1)),
            None => None,
        }
    } else if s[i] == 't' {
        match sp_lit(s, i, "true"@) {
            Some(j) => Some((FlatV::Other, j)),
            None => None,
        }
    } else if s[i] == 'f' {
        match sp_lit(s, i, "false"@) {
            Some(j) => Some((FlatV::Other, j)),
            None => None,
        }
    } else if s[i] == 'n' {
        match sp_lit(s, i, "null"@) {
            Some(j) => Some((FlatV::Other, j)),
            None => None,
        }
    } else {
        let e = num_end(s, i);
        if e == i {
            None
        } else {
            Some((FlatV::Other, e))
        }
    }
}

/// A run of `"name": value` pairs separated by commas and whitespace;
/// stops, after trailing whitespace, before whatever follows the run.
pub open spec fn sp_flat_pairs(s: Seq<char>, i: int) -> Option<(Seq<(Seq<char>, FlatV)>, int)>
    decreases s.len() - i,
{
    if !(0 <= i < s.len() && s[i] == '"') {
        None
    } else {
        match sp_string(s, i + 1) {
            None => None,
            Some((name, e)) => {
                let j1 = ws_end(s, e + 1);
                if !(j1 < s.len() && s[j1] == ':') {
                    None
                } else {
                    let j2 = ws_end(s, j1 + 1);
                    match sp_flat_value(s, j2) {
                        None => None,
                        Some((v, j3)) => {
                            let j4 = ws_end(s, j3);
                            if j4 < s.len() && s[j4] == ',' {
                                let j5 = ws_end(s, j4 + 1);
                                if j5 <= i || j5 > s.len() {
                                    None
                                } else {
                                    match sp_flat_pairs(s, j5) {
                                        None => None,
                                        Some((ps, j6)) => Some((seq![(name, v)] + ps, j6)),
                                    }
                                }
                            } else {
                                Some((seq![(name, v)], j4))
                            }
                        },
                    }
                }
            },
        }
    }
}

/// A whole body: one flat object, possibly empty, with nothing but
/// whitespace around it.
pub open spec fn sp_parse_flat(s: Seq<char>) -> Option<Seq<(Seq<char>, FlatV)>> {
    let i0 = ws_end(s, 0);
    if !(i0 < s.len() && s[i0] == '{') {
        None
    } else {
        let i1 = ws_end(s, i0 + 1);
        if i1 < s.len() && s[i1] == '}' {
            if ws_end(s, i1 + 1) == s.len() {
                Some(Seq::<(Seq<char>, FlatV)>::empty())
            } else {
                None
            }
        } else {
            match sp_flat_pairs(s, i1) {
                None => None,
                Some((ps, j)) => {
                    if j < s.len() && s[j] == '}' && ws_end(s, j + 1) == s.len() {
                        Some(ps)
                    } else {
                        None
                    }
                },
            }
        }
    }
}

/// The value under a field name; a repeated name reads as its last
/// occurrence.
pub open spec fn flat_get(ps: Seq<(Seq<char>, FlatV)>, key: Seq<char>) -> Option<FlatV>
    decreases ps.len(),
{
    if ps.len() == 0 {
        None
    } else if ps.last().0 == key {
        Some(ps.last().1)
    } else {
        flat_get(ps.drop_last(), key)
    }
}

fn num_char(c: char) -> (r: bool)
    ensures
        r == is_num_char(c),
{
    let n: u32 = c as u32;
    (48 <= n && n <= 57) || c == '-' || c == '+' || c == '.' || c == 'e' || c == 'E'
}

/// Skips whitespace.
fn e_ws(v: &Vec<char>, i: usize) -> (r: usize)
    ensures
        r as int == ws_end(v@, i as int),
        i <= r <= v@.len() || (i > v@.len() && r as int == v@.len()),
{
    if i >= v.len() {
        return v.len();
    }
    let mut j: usize = i;
    while j < v.len() && (v[j] == ' ' || v[j] == '\t' || v[j] == '\n' || v[j] == '\r')
        invariant
            i <= j <= v@.len(),
            forall|t: int| i <= t < j ==> is_json_ws(#[trigger] v@[t]),
        decreases v@.len() - j,
    {
        j = j + 1;
    }
    proof {
        lemma_ws_end_at(v@, i as int, j as int);
    }
    j
}

/// Reads one field value.
fn e_flat_value(v: &Vec<char>, i: usize) -> (r: Option<(FlatVal, usize)>)
    ensures
        r matches Some(p) ==> sp_flat_value(v@, i as int) == Some((flat_val_view(p.0), p.1 as int))
            && i < p.1 <= v@.len(),
        r is None ==> sp_flat_value(v@, i as int) is None,
{
    if i >= v.len() {
        return None;
    }
    let c = v[i];
    if c == '"' {
        match e_string(v, i + 1) {
            Some((body, e)) => Some((FlatVal::S(string_from_chars(&body)), e + 1)),
            None => None,
        }
    } else if c == 't' {
        match e_lit(v, i, "true") {
            Some(j) => {
                proof {
                    reveal_strlit("true");
                }
                Some((FlatVal::Other, j))
            }
            None => None,
        }
    } else if c == 'f' {
        match e_lit(v, i, "false") {
            Some(j) => {
                proof {
                    reveal_strlit("false");
                }
                Some((FlatVal::Other, j))
            }
            None => None,
        }
    } else if c == 'n' {
        match e_lit(v, i, "null") {
            Some(j) => {
                proof {
                    reveal_strlit("null");
                }
                Some((FlatVal::Other, j))
            }
            None => None,
        }
    } else {
        let mut e: usize = i;
        while e < v.len() && num_char(v[e])
            invariant
                i <= e <= v@.len(),
                forall|t: int| i <= t < e ==> is_num_char(#[trigger] v@[t]),
            decreases v@.len() - e,
        {
            e = e + 1;
        }
        proof {
            lemma_num_end_at(v@, i as int, e as int);
        }
        if e == i {
            None
        } else {
            Some((FlatVal::Other, e))
        }
    }
}

/// Reads a run of pairs.
fn e_flat_pairs(v: &Vec<char>, i: usize) -> (r: Option<(Vec<(String, FlatVal)>, usize)>)
    requires
        i <= v@.len(),
    ensures
        r matches Some(p) ==> sp_flat_pairs(v@, i as int) == Some((flat_views(p.0@), p.1 as int))
            && p.1 <= v@.len(),
        r is None ==> sp_flat_pairs(v@, i as int) is None,
{
    let mut acc: Vec<(String, FlatVal)> = Vec::new();
    let mut cur: usize = i;
    proof {
        match sp_flat_pairs(v@, i as int) {
            Some(rp) => {
                assert(flat_views(acc@) + rp.0 =~= rp.0);
            }
            None => {}
        }
    }
    loop
        invariant
            cur <= v@.len(),
            match sp_flat_pairs(v@, cur as int) {
                Some(rp) => sp_flat_pairs(v@, i as int) == Some((flat_views(acc@) + rp.0, rp.1)),
                None => sp_flat_pairs(v@, i as int) is None,
            },
        decreases v@.len() - cur,
    {
        if !(cur < v.len()) {
            return None;
        }
        if v[cur] != '"' {
            return None;
        }
        let Some((namev, e)) = e_string(v, cur + 1) else {
            return None;
        };
        let j1 = e_ws(v, e + 1);
        if !(j1 < v.len()) {
            return None;
        }
        if v[j1] != ':' {
            return None;
        }
        let j2 = e_ws(v, j1 + 1);
        let Some((val, j3)) = e_flat_value(v, j2) else {
            return None;
        };
        let j4 = e_ws(v, j3);
        let name = string_from_chars(&namev);
        let ghost p_spec = (name@, flat_val_view(val));
        let comma = if j4 < v.len() {
            v[j4] == ','
        } else {
            false
        };
        if comma {
            let j5 = e_ws(v, j4 + 1);
            if j5 <= cur {
                return None;
            }
            acc.push((name, val));
            proof {
                match sp_flat_pairs(v@, j5 as int) {
                    Some(rp2) => {
                        assert(sp_flat_pairs(v@, cur as int) == Some((
                            seq![p_spec] + rp2.0,
                            rp2.1,
                        )));
                        assert(flat_views(acc@) =~= flat_views(acc@.drop_last()) + seq![p_spec]);
                        assert(flat_views(acc@.drop_last()) + (seq![p_spec] + rp2.0) =~= flat_views(
                            acc@,
                        ) + rp2.0);
                    }
                    None => {}
                }
            }
            cur = j5;
        } else {
            acc.push((name, val));
            proof {
                assert(sp_flat_pairs(v@, cur as int) == Some((seq![p_spec], j4 as int)));
                assert(flat_views(acc@) =~= flat_views(acc@.drop_last()) + seq![p_spec]);
            }
            return Some((acc, j4));
        }
    }
}

/// Parses a request body as one flat JSON object.
pub fn parse_flat(s: &str) -> (r: Option<Vec<(String, FlatVal)>>)
    ensures
        r matches Some(ps) ==> sp_parse_flat(s@) == Some(flat_views(ps@)),
        r is None ==> sp_parse_flat(s@) is None,
{
    let v = chars_of_str(s);
    let i0 = e_ws(&v, 0);
    if !(i0 < v.len()) {
        return None;
    }
    if v[i0] != '{' {
        return None;
    }
    let i1 = e_ws(&v, i0 + 1);
    if i1 < v.len() && v[i1] == '}' {
        let t = e_ws(&v, i1 + 1);
        if t == v.len() {
            let empty_acc: Vec<(String, FlatVal)> = Vec::new();
            proof {
                assert(flat_views(empty_acc@) =~= Seq::<(Seq<char>, FlatV)>::empty());
            }
            return Some(empty_acc);
        } else {
            return None;
        }
    }
    let Some((ps, j)) = e_flat_pairs(&v, i1) else {
        return None;
    };
    if !(j < v.len()) {
        return None;
    }
    if v[j] != '}' {
        return None;
    }
    let t = e_ws(&v, j + 1);
    if t != v.len() {
        return None;
    }
    Some(ps)
}

/// Looks a field up by name; a repeated name reads as its last
/// occurrence.
pub fn flat_lookup<'a>(ps: &'a Vec<(String, FlatVal)>, key: &String) -> (r: Option<&'a FlatVal>)
    ensures
        match r {
            Some(val) => flat_get(flat_views(ps@), key@) == Some(flat_val_view(*val)),
            None => flat_get(flat_views(ps@), key@) is None,
        },
{
    proof {
        assert(flat_views(ps@).take(ps@.len() as int) =~= flat_views(ps@));
    }
    let mut i: usize = ps.len();
    while i > 0
        invariant
            i <= ps@.len(),
            flat_get(flat_views(ps@), key@) == flat_get(
                flat_views(ps@).take(i as int),
                key@,
            ),
        decreases i,
    {
        i = i - 1;
        let elem = &ps[i];
        proof {
            assert(flat_views(ps@).take(i + 1).last() == flat_views(ps@)[i as int]);
            assert(flat_views(ps@).take(i + 1).drop_last() =~= flat_views(ps@).take(i as int));
        }
        if elem.0 == *key {
            return Some(&elem.1);
        }
    }
    proof {
        assert(flat_views(ps@).take(0).len() == 0);
    }
    None
}

} // verus!
