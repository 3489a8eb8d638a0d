//! The canonical JSON form of a budget, used both for the persisted
//! record and for replies to clients:
//!
//! `{"username":"u","current_balance":0,"expected_income":0,
//!   "expected_expenses":{"a":1},"current_expenses":{"a":0},"savings":0}`
//!
//! The serializer and the parser are written against the same
//! character-level grammar — quotes, backslashes and the short-escape
//! control characters travel escaped — and parsing a serialized
//! well-formed budget provably gives the budget back.

use vstd::prelude::*;
use crate::budget::{bounded_view, Budget, BudgetView, Expense};
use crate::text::{chars_of_str, dec_int, dec_nat, digit_val, digits_val, is_digit, is_plain, lemma_dec_nat_digits, push_dec_i64, string_from_chars};

verus! {

/// The written form of one character inside a JSON string: quotes,
/// backslashes and the five short-escape control characters go out
/// escaped, everything else stands as itself.
pub open spec fn esc_char(c: char) -> Seq<char> {
    if c == '"' {
        seq!['\\', '"']
    } else if c == '\\' {
        seq!['\\', '\\']
    } else if c == '\u{8}' {
        seq!['\\', 'b']
    } else if c == '\u{c}' {
        seq!['\\', 'f']
    } else if c == '\n' {
        seq!['\\', 'n']
    } else if c == '\r' {
        seq!['\\', 'r']
    } else if c == '\t' {
        seq!['\\', 't']
    } else {
        seq![c]
    }
}

/// The written form of a whole string body.
pub open spec fn esc_str(s: Seq<char>) -> Seq<char>
    decreases s.len(),
{
    if s.len() == 0 {
        Seq::<char>::empty()
    } else {
        esc_char(s[0]) + esc_str(s.skip(1))
    }
}

pub proof fn lemma_esc_str_snoc(s: Seq<char>, c: char)
    ensures
        esc_str(s.push(c)) == esc_str(s) + esc_char(c),
    decreases s.len(),
{
    let p = s.push(c);
    if s.len() == 0 {
        assert(p[0] == c);
        assert(p.skip(1) =~= Seq::<char>::empty());
        assert(esc_str(p.skip(1)) == Seq::<char>::empty());
        assert(esc_str(p) == esc_char(c) + Seq::<char>::empty());
        assert(esc_str(s) == Seq::<char>::empty());
        assert(esc_char(c) + Seq::<char>::empty() =~= Seq::<char>::empty() + esc_char(c));
    } else {
        assert(p[0] == s[0]);
        assert(p.skip(1) =~= s.skip(1).push(c));
        lemma_esc_str_snoc(s.skip(1), c);
        assert(esc_str(p) == esc_char(s[0]) + esc_str(p.skip(1)));
        assert(esc_str(s) == esc_char(s[0]) + esc_str(s.skip(1)));
        assert(esc_char(s[0]) + (esc_str(s.skip(1)) + esc_char(c)) =~= (esc_char(s[0]) + esc_str(
            s.skip(1),
        )) + esc_char(c));
    }
}

/// The character an escape code stands for, if it is one.
pub open spec fn unesc_char(c: char) -> Option<char> {
    if c == '"' {
        Some('"')
    } else if c == '\\' {
        Some('\\')
    } else if c == '/' {
        Some('/')
    } else if c == 'b' {
        Some('\u{8}')
    } else if c == 'f' {
        Some('\u{c}')
    } else if c == 'n' {
        Some('\n')
    } else if c == 'r' {
        Some('\r')
    } else if c == 't' {
        Some('\t')
    } else {
        None
    }
}

/// One `"label":value` pair.
pub open spec fn ser_pair(label: Seq<char>, v: int) -> Seq<char> {
    seq!['"'] + esc_str(label) + seq!['"', ':'] + dec_int(v)
}

/// The pairs of one expense object, comma-separated.  `use_expected`
/// picks which of the two amounts of each entry is written.
pub open spec fn ser_pairs(entries: Seq<(Seq<char>, int, int)>, use_expected: bool) -> Seq<char>
    decreases entries.len(),
{
    if entries.len() == 0 {
        Seq::<char>::empty()
    } else {
        let head = ser_pair(
            entries[0].0,
            if use_expected {
                entries[0].1
            } else {
                entries[0].2
            },
        );
        if entries.len() == 1 {
            head
        } else {
            head + seq![','] + ser_pairs(entries.skip(1), use_expected)
        }
    }
}

pub proof fn lemma_ser_pairs_snoc(
    entries: Seq<(Seq<char>, int, int)>,
    e: (Seq<char>, int, int),
    use_expected: bool,
)
    ensures
        ser_pairs(entries.push(e), use_expected) == if entries.len() == 0 {
            ser_pair(
                e.0,
                if use_expected {
                    e.1
                } else {
                    e.2
                },
            )
        } else {
            ser_pairs(entries, use_expected) + seq![','] + ser_pair(
                e.0,
                if use_expected {
                    e.1
                } else {
                    e.2
                },
            )
        },
    decreases entries.len(),
{
    let p = entries.push(e);
    if entries.len() == 0 {
        assert(p[0] == e);
        assert(p.len() == 1);
    } else {
        assert(p[0] == entries[0]);
        assert(p.skip(1) =~= entries.skip(1).push(e));
        lemma_ser_pairs_snoc(entries.skip(1), e, use_expected);
        if entries.len() == 1 {
            assert(entries.skip(1).len() == 0);
            assert(ser_pairs(p, use_expected) =~= ser_pairs(entries, use_expected) + seq![',']
                + ser_pair(
                e.0,
                if use_expected {
                    e.1
                } else {
                    e.2
                },
            ));
        } else {
            assert(ser_pairs(p, use_expected) =~= ser_pairs(entries, use_expected) + seq![',']
                + ser_pair(
                e.0,
                if use_expected {
                    e.1
                } else {
                    e.2
                },
            ));
        }
    }
}

/// The canonical JSON rendering of a budget.
pub open spec fn ser_budget(b: BudgetView) -> Seq<char> {
    "{\"username\":\""@ + esc_str(b.username) + "\",\"current_balance\":"@ + dec_int(b.current_balance)
        + ",\"expected_income\":"@ + dec_int(b.expected_income) + ",\"expected_expenses\":{"@
        + ser_pairs(b.entries, true) + "},\"current_expenses\":{"@ + ser_pairs(b.entries, false)
        + "},\"savings\":"@ + dec_int(b.savings) + seq!['}']
}

/// First position at or after `i` holding a non-digit, or the length.
pub open spec fn digit_end(s: Seq<char>, i: int) -> int
    decreases s.len() - i,
{
    if i < 0 || i >= s.len() {
        s.len() as int
    } else if is_digit(s[i]) {
        digit_end(s, i + 1)
    } else {
        i
    }
}

pub proof fn lemma_digit_end_at(s: Seq<char>, i: int, k: int)
    requires
        0 <= i <= k <= s.len(),
        forall|t: int| i <= t < k ==> is_digit(#[trigger] s[t]),
        k == s.len() || !is_digit(s[k]),
    ensures
        digit_end(s, i) == k,
    decreases k - i,
{
    if i < k {
        lemma_digit_end_at(s, i + 1, k);
    }
}

/// Consumes an exact literal, yielding the position after it.
pub open spec fn sp_lit(s: Seq<char>, i: int, lit: Seq<char>) -> Option<int> {
    if 0 <= i && i + lit.len() <= s.len() && s.subrange(i, i + lit.len()) == lit {
        Some(i + lit.len() as int)
    } else {
        None
    }
}

/// Consumes a string body up to (not including) the closing quote,
/// decoding the standard escapes; yields the decoded body and the
/// position of the quote.  A raw control character, an unknown escape
/// code, or a missing closing quote is refused.
pub open spec fn sp_string(s: Seq<char>, i: int) -> Option<(Seq<char>, int)>
    decreases s.len() - i,
{
    if i < 0 || i >= s.len() {
        None
    } else if s[i] == '"' {
        Some((Seq::<char>::empty(), i))
    } else if s[i] == '\\' {
        if i + 1 >= s.len() {
            None
        } else {
            match unesc_char(s[i + 1]) {
                None => None,
                Some(c) => match sp_string(s, i + 2) {
                    None => None,
                    Some((t, e)) => Some((seq![c] + t, e)),
                },
            }
        }
    } else if s[i] as u32 >= 32 {
        match sp_string(s, i + 1) {
            None => None,
            Some((t, e)) => Some((seq![s[i]] + t, e)),
        }
    } else {
        None
    }
}

/// Whatever a string parse decodes can be written back.
pub proof fn lemma_sp_string_plain(s: Seq<char>, i: int)
    ensures
        sp_string(s, i) matches Some(p) ==> is_plain(p.0) && i <= p.1 < s.len(),
    decreases s.len() - i,
{
    if i < 0 || i >= s.len() {
    } else if s[i] == '"' {
    } else if s[i] == '\\' {
        if i + 1 < s.len() {
            lemma_sp_string_plain(s, i + 2);
            match (unesc_char(s[i + 1]), sp_string(s, i + 2)) {
                (Some(c), Some((t, _e))) => {
                    let whole = seq![c] + t;
                    assert forall|k: int| 0 <= k < whole.len() implies crate::text::is_plain_char(
                        #[trigger] whole[k],
                    ) by {
                        if k == 0 {
                            assert(whole[0] == c);
                        } else {
                            assert(whole[k] == t[k - 1]);
                        }
                    }
                }
                _ => {}
            }
        }
    } else if s[i] as u32 >= 32 {
        lemma_sp_string_plain(s, i + 1);
        match sp_string(s, i + 1) {
            Some((t, _e)) => {
                let whole = seq![s[i]] + t;
                assert forall|k: int| 0 <= k < whole.len() implies crate::text::is_plain_char(
                    #[trigger] whole[k],
                ) by {
                    if k == 0 {
                        assert(whole[0] == s[i]);
                    } else {
                        assert(whole[k] == t[k - 1]);
                    }
                }
            }
            None => {}
        }
    }
}

/// Parsing the written form of a string body lands exactly on the
/// closing quote and gives the body back.
pub proof fn lemma_sp_string_ser(s: Seq<char>, i: int, x: Seq<char>)
    requires
        0 <= i,
        i + esc_str(x).len() < s.len(),
        s.subrange(i, i + esc_str(x).len()) == esc_str(x),
        s[i + esc_str(x).len()] == '"',
        is_plain(x),
    ensures
        sp_string(s, i) == Some((x, i + esc_str(x).len())),
    decreases x.len(),
{
    let w = esc_str(x);
    assert forall|t: int| 0 <= t < w.len() implies s[i + t] == w[t] by {
        assert(s.subrange(i, i + w.len())[t] == w[t]);
    }
    if x.len() == 0 {
        assert(s[i] == '"');
    } else {
        let c = x[0];
        let ec = esc_char(c);
        assert(w == ec + esc_str(x.skip(1)));
        assert(crate::text::is_plain_char(c));
        assert forall|k: int| 0 <= k < x.skip(1).len() implies crate::text::is_plain_char(
            #[trigger] x.skip(1)[k],
        ) by {
            assert(x.skip(1)[k] == x[k + 1]);
        }
        let rest_at = i + ec.len();
        assert forall|t: int| 0 <= t < esc_str(x.skip(1)).len() implies s.subrange(
            rest_at,
            rest_at + esc_str(x.skip(1)).len(),
        )[t] == esc_str(x.skip(1))[t] by {
            assert(s[rest_at + t] == w[ec.len() + t]);
            assert(w[ec.len() + t] == esc_str(x.skip(1))[t]);
        }
        assert(s.subrange(rest_at, rest_at + esc_str(x.skip(1)).len()) =~= esc_str(x.skip(1)));
        lemma_sp_string_ser(s, rest_at, x.skip(1));
        if c == '"' || c == '\\' || c == '\u{8}' || c == '\u{c}' || c == '\n' || c == '\r'
            || c == '\t' {
            assert(ec.len() == 2);
            assert(ec[0] == '\\');
            assert(unesc_char(ec[1]) == Some(c));
            assert(w[0] == ec[0]);
            assert(w[1] == ec[1]);
            assert(s[i + 0] == w[0]);
            assert(s[i + 1] == w[1]);
            assert(s[i] == '\\');
            assert(seq![c] + x.skip(1) =~= x);
        } else {
            assert(ec =~= seq![c]);
            assert(w[0] == ec[0]);
            assert(s[i + 0] == w[0]);
            assert(s[i] == c);
            assert(c as u32 >= 32);
            assert(c != '"' && c != '\\');
            assert(seq![c] + x.skip(1) =~= x);
        }
    }
}

/// Consumes a signed decimal integer within the `i64` range.
pub open spec fn sp_int(s: Seq<char>, i: int) -> Option<(int, int)> {
    if i < 0 || i >= s.len() {
        None
    } else {
        let neg = s[i] == '-';
        let j = if neg {
            i + 1
        } else {
            i
        };
        let e = digit_end(s, j);
        if e == j {
            None
        } else {
            let v = digits_val(s.subrange(j, e)) as int;
            if neg {
                if v > 0x8000_0000_0000_0000 {
                    None
                } else {
                    Some((-v, e))
                }
            } else {
                if v > 0x7FFF_FFFF_FFFF_FFFF {
                    None
                } else {
                    Some((v, e))
                }
            }
        }
    }
}

/// Consumes one `"label":value` pair.
pub open spec fn sp_pair(s: Seq<char>, i: int) -> Option<((Seq<char>, int), int)> {
    if !(0 <= i < s.len() && s[i] == '"') {
        None
    } else {
        match sp_string(s, i + 1) {
            None => None,
            Some((lbl, e)) => {
                if !(e + 1 < s.len() && s[e + 1] == ':') {
                    None
                } else {
                    match sp_int(s, e + 2) {
                        None => None,
                        Some((v, j)) => Some(((lbl, v), j)),
                    }
                }
            }
        }
    }
}

/// Consumes a comma-separated run of pairs; stops before a `'}'`.
pub open spec fn sp_pairs(s: Seq<char>, i: int) -> Option<(Seq<(Seq<char>, int)>, int)>
    decreases s.len() - i,
{
    if 0 <= i < s.len() && s[i] == '}' {
        Some((Seq::<(Seq<char>, int)>::empty(), i))
    } else {
        match sp_pair(s, i) {
            None => None,
            Some((p, j)) => {
                if j <= i {
                    None
                } else if j < s.len() && s[j] == ',' {
                    match sp_pairs(s, j + 1) {
                        None => None,
                        Some((ps, e)) => Some((seq![p] + ps, e)),
                    }
                } else {
                    Some((seq![p], j))
                }
            }
        }
    }
}

/// The labels of two parsed expense objects coincide position by
/// position and are pairwise distinct.
pub open spec fn labels_ok(eps: Seq<(Seq<char>, int)>, cps: Seq<(Seq<char>, int)>) -> bool {
    &&& eps.len() == cps.len()
    &&& forall|k: int| 0 <= k < eps.len() ==> (#[trigger] eps[k]).0 == (#[trigger] cps[k]).0
    &&& forall|k: int, l: int|
        0 <= k < l < eps.len() ==> (#[trigger] eps[k]).0 != (#[trigger] eps[l]).0
}

/// Zips the two parsed expense objects into budget entries.
pub open spec fn zip_pairs(eps: Seq<(Seq<char>, int)>, cps: Seq<(Seq<char>, int)>) -> Seq<
    (Seq<char>, int, int),
> {
    Seq::new(eps.len(), |k: int| (eps[k].0, eps[k].1, cps[k].1))
}

/// Parses the canonical JSON form of a budget.
pub open spec fn spec_parse_budget(s: Seq<char>) -> Option<BudgetView> {
    match sp_lit(s, 0, "{\"username\":\""@) {
        None => None,
        Some(i0) => match sp_string(s, i0) {
            None => None,
            Some((uname, i1)) => match sp_lit(s, i1, "\",\"current_balance\":"@) {
                None => None,
                Some(i2) => match sp_int(s, i2) {
                    None => None,
                    Some((bal, i3)) => match sp_lit(s, i3, ",\"expected_income\":"@) {
                        None => None,
                        Some(i4) => match sp_int(s, i4) {
                            None => None,
                            Some((inc, i5)) => match sp_lit(s, i5, ",\"expected_expenses\":{"@) {
                                None => None,
                                Some(i6) => match sp_pairs(s, i6) {
                                    None => None,
                                    Some((eps, i7)) => match sp_lit(
                                        s,
                                        i7,
                                        "},\"current_expenses\":{"@,
                                    ) {
                                        None => None,
                                        Some(i8) => match sp_pairs(s, i8) {
                                            None => None,
                                            Some((cps, i9)) => match sp_lit(
                                                s,
                                                i9,
                                                "},\"savings\":"@,
                                            ) {
                                                None => None,
                                                Some(i10) => match sp_int(s, i10) {
                                                    None => None,
                                                    Some((sav, i11)) => {
                                                        if i11 + 1 == s.len() && s[i11] == '}'
                                                            && labels_ok(eps, cps) {
                                                            Some(
                                                                BudgetView {
                                                                    username: uname,
                                                                    current_balance: bal,
                                                                    expected_income: inc,
                                                                    entries: zip_pairs(eps, cps),
                                                                    savings: sav,
                                                                },
                                                            )
                                                        } else {
                                                            None
                                                        }
                                                    }
                                                },
                                            },
                                        },
                                    },
                                },
                            },
                        },
                    },
                },
            },
        },
    }
}

/// The (label, amount) pairs of one expense object.
pub open spec fn pairs_of(entries: Seq<(Seq<char>, int, int)>, use_expected: bool) -> Seq<
    (Seq<char>, int),
> {
    entries.map_values(
        |e: (Seq<char>, int, int)|
            (
                e.0,
                if use_expected {
                    e.1
                } else {
                    e.2
                },
            ),
    )
}

proof fn lemma_sp_int_dec(s: Seq<char>, i: int, n: int)
    requires
        0 <= i,
        i + dec_int(n).len() < s.len(),
        s.subrange(i, i + dec_int(n).len()) == dec_int(n),
        !is_digit(s[i + dec_int(n).len()]),
        i64::MIN <= n <= i64::MAX,
    ensures
        sp_int(s, i) == Some((n, i + dec_int(n).len())),
{
    let d = dec_int(n);
    assert forall|t: int| 0 <= t < d.len() implies s[i + t] == d[t] by {
        assert(s.subrange(i, i + d.len())[t] == d[t]);
    }
    if n >= 0 {
        lemma_dec_nat_digits(n as nat);
        assert(s[i] == d[0]);
        assert(is_digit(s[i]));
        assert(s[i] != '-' && s[i] != '"');
        assert forall|t: int| i <= t < i + d.len() implies is_digit(#[trigger] s[t]) by {
            assert(s[t] == d[t - i]);
        }
        lemma_digit_end_at(s, i, i + d.len());
        assert(s.subrange(i, i + d.len()) =~= d);
        assert(digits_val(d) == n);
    } else {
        lemma_dec_nat_digits((-n) as nat);
        let m = dec_nat((-n) as nat);
        assert(d == seq!['-'] + m);
        assert(s[i] == d[0] && d[0] == '-');
        assert forall|t: int| i + 1 <= t < i + d.len() implies is_digit(#[trigger] s[t]) by {
            assert(s[t] == d[t - i]);
            assert(d[t - i] == m[t - i - 1]);
        }
        lemma_digit_end_at(s, i + 1, i + d.len());
        assert forall|t: int| 0 <= t < m.len() implies s.subrange(i + 1, i + d.len())[t]
            == m[t] by {
            assert(s[i + 1 + t] == d[1 + t]);
            assert(d[1 + t] == m[t]);
        }
        assert(s.subrange(i + 1, i + d.len()) =~= m);
        assert(digits_val(m) == -n);
        assert(-n <= 0x8000_0000_0000_0000);
    }
}

proof fn lemma_sp_pairs_ser(s: Seq<char>, i: int, entries: Seq<(Seq<char>, int, int)>, ue: bool)
    requires
        0 <= i,
        i + ser_pairs(entries, ue).len() < s.len(),
        s.subrange(i, i + ser_pairs(entries, ue).len()) == ser_pairs(entries, ue),
        s[i + ser_pairs(entries, ue).len()] == '}',
        forall|k: int| 0 <= k < entries.len() ==> is_plain((#[trigger] entries[k]).0),
        forall|k: int|
            0 <= k < entries.len() ==> i64::MIN <= (#[trigger] entries[k]).1 <= i64::MAX
                && i64::MIN <= entries[k].2 <= i64::MAX,
    ensures
        sp_pairs(s, i) == Some((pairs_of(entries, ue), i + ser_pairs(entries, ue).len())),
    decreases entries.len(),
{
    let w = ser_pairs(entries, ue);
    let end = i + w.len();
    if entries.len() == 0 {
        assert(s[i] == '}');
        assert(pairs_of(entries, ue) =~= Seq::<(Seq<char>, int)>::empty());
    } else {
        let lbl = entries[0].0;
        let v: int = if ue {
            entries[0].1
        } else {
            entries[0].2
        };
        let hp = ser_pair(lbl, v);
        let d = dec_int(v);
        let el = esc_str(lbl);
        assert(hp == seq!['"'] + el + seq!['"', ':'] + d);
        // scaffolding: characters of s against the serialized pair run
        if entries.len() == 1 {
            assert(w == hp);
        } else {
            assert(w == hp + seq![','] + ser_pairs(entries.skip(1), ue));
        }
        assert forall|x: int| 0 <= x < w.len() implies s[i + x] == w[x] by {
            assert(s.subrange(i, i + w.len())[x] == w[x]);
        }
        assert forall|x: int| 0 <= x < hp.len() implies w[x] == hp[x] by {}
        assert forall|x: int| 0 <= x < hp.len() implies s[i + x] == hp[x] by {}
        // heads of the serialized form
        assert(s[i] == w[0] && w[0] == '"');
        assert(s[i] != '}');
        // the label's written form runs from i+1, followed by '"'
        let e = i + 1 + el.len();
        assert forall|t: int| 0 <= t < el.len() implies s.subrange(i + 1, e)[t] == el[t] by {
            assert(s[i + (1 + t)] == hp[1 + t]);
            assert(hp[1 + t] == el[t]);
        }
        assert(s.subrange(i + 1, e) =~= el);
        assert(s[e] == hp[e - i]);
        assert(hp[e - i] == '"');
        lemma_sp_string_ser(s, i + 1, lbl);
        assert(sp_string(s, i + 1) == Some((lbl, e)));
        assert(s[e + 1] == hp[e + 1 - i] && hp[e + 1 - i] == ':');
        // the number
        assert(s.subrange(e + 2, e + 2 + d.len()) =~= d) by {
            assert forall|t: int| 0 <= t < d.len() implies s.subrange(e + 2, e + 2 + d.len())[t]
                == d[t] by {
                assert(s[e + 2 + t] == w[e + 2 + t - i]);
                assert(w[e + 2 + t - i] == hp[e + 2 + t - i]);
                assert(hp[e + 2 + t - i] == d[t]);
            }
        }
        let j = e + 2 + d.len();
        if entries.len() == 1 {
            assert(j == end);
            assert(s[j] == '}');
            assert(!is_digit('}'));
            lemma_sp_int_dec(s, e + 2, v);
            assert(sp_pair(s, i) == Some(((lbl, v), j)));
            assert(s[j] != ',');
            assert(sp_pairs(s, i) == Some((seq![(lbl, v)], j)));
            assert(pairs_of(entries, ue) =~= seq![(lbl, v)]);
        } else {
            let rest = ser_pairs(entries.skip(1), ue);
            assert(w == hp + seq![','] + rest);
            assert(s[j] == w[j - i] && w[j - i] == ',');
            assert(!is_digit(','));
            lemma_sp_int_dec(s, e + 2, v);
            assert(sp_pair(s, i) == Some(((lbl, v), j)));
            assert(s.subrange(j + 1, j + 1 + rest.len()) =~= rest) by {
                assert forall|t: int| 0 <= t < rest.len() implies s.subrange(
                    j + 1,
                    j + 1 + rest.len(),
                )[t] == rest[t] by {
                    assert(s[j + 1 + t] == w[j + 1 + t - i]);
                    assert(w[j + 1 + t - i] == rest[t]);
                }
            }
            assert(j + 1 + rest.len() == end);
            assert forall|k: int| 0 <= k < entries.skip(1).len() implies is_plain(
                (#[trigger] entries.skip(1)[k]).0,
            ) && i64::MIN <= entries.skip(1)[k].1 <= i64::MAX && i64::MIN <= entries.skip(1)[k].2
                <= i64::MAX by {
                assert(entries.skip(1)[k] == entries[k + 1]);
            }
            lemma_sp_pairs_ser(s, j + 1, entries.skip(1), ue);
            assert(sp_pairs(s, i) == Some((seq![(lbl, v)] + pairs_of(entries.skip(1), ue), end)));
            assert(pairs_of(entries, ue) =~= seq![(lbl, v)] + pairs_of(entries.skip(1), ue));
        }
    }
}

/// Law: the canonical JSON form round-trips.  Parsing the rendering of
/// any well-formed budget yields that budget back, unchanged.
#[verifier::rlimit(100)]
pub proof fn lemma_budget_json_round_trip(b: BudgetView)
    requires
        b.wf(),
        bounded_view(b),
    ensures
        spec_parse_budget(ser_budget(b)) == Some(b),
{
    broadcast use vstd::string::group_string_axioms;

    let lit1 = "{\"username\":\""@;
    let lit2 = "\",\"current_balance\":"@;
    let lit3 = ",\"expected_income\":"@;
    let lit4 = ",\"expected_expenses\":{"@;
    let lit5 = "},\"current_expenses\":{"@;
    let lit6 = "},\"savings\":"@;
    reveal_strlit("{\"username\":\"");
    reveal_strlit("\",\"current_balance\":");
    reveal_strlit(",\"expected_income\":");
    reveal_strlit(",\"expected_expenses\":{");
    reveal_strlit("},\"current_expenses\":{");
    reveal_strlit("},\"savings\":");
    let d1 = dec_int(b.current_balance);
    let d2 = dec_int(b.expected_income);
    let d3 = dec_int(b.savings);
    let pp1 = ser_pairs(b.entries, true);
    let pp2 = ser_pairs(b.entries, false);
    let s = ser_budget(b);
    let eu = esc_str(b.username);
    assert(s == lit1 + eu + lit2 + d1 + lit3 + d2 + lit4 + pp1 + lit5 + pp2 + lit6 + d3
        + seq!['}']);
    // positions
    let i0 = lit1.len() as int;
    let i1 = i0 + eu.len();
    let i2 = i1 + lit2.len();
    let i3 = i2 + d1.len();
    let i4 = i3 + lit3.len();
    let i5 = i4 + d2.len();
    let i6 = i5 + lit4.len();
    let i7 = i6 + pp1.len();
    let i8 = i7 + lit5.len();
    let i9 = i8 + pp2.len();
    let i10 = i9 + lit6.len();
    let i11 = i10 + d3.len();
    assert(s.len() == i11 + 1);
    // literal 1
    assert(s.subrange(0, i0) =~= lit1);
    assert(sp_lit(s, 0, lit1) == Some(i0));
    // username string
    assert forall|t: int| 0 <= t < eu.len() implies s.subrange(i0, i1)[t] == eu[t] by {
        assert(s[i0 + t] == eu[t]);
    }
    assert(s.subrange(i0, i1) =~= eu);
    assert(s[i1] == lit2[0]);
    assert(lit2[0] == '"');
    lemma_sp_string_ser(s, i0, b.username);
    assert(sp_string(s, i0) == Some((b.username, i1)));
    // literal 2, balance
    assert(s.subrange(i1, i2) =~= lit2);
    assert(sp_lit(s, i1, lit2) == Some(i2));
    assert(s.subrange(i2, i3) =~= d1);
    assert(s[i3] == lit3[0]);
    assert(lit3[0] == ',');
    assert(!is_digit(','));
    lemma_sp_int_dec(s, i2, b.current_balance);
    // literal 3, income
    assert(s.subrange(i3, i4) =~= lit3);
    assert(sp_lit(s, i3, lit3) == Some(i4));
    assert(s.subrange(i4, i5) =~= d2);
    assert(s[i5] == lit4[0]);
    assert(lit4[0] == ',');
    lemma_sp_int_dec(s, i4, b.expected_income);
    // literal 4, expected pairs
    assert(s.subrange(i5, i6) =~= lit4);
    assert(sp_lit(s, i5, lit4) == Some(i6));
    assert(s.subrange(i6, i7) =~= pp1);
    assert(s[i7] == lit5[0]);
    assert(lit5[0] == '}');
    lemma_sp_pairs_ser(s, i6, b.entries, true);
    // literal 5, current pairs
    assert(s.subrange(i7, i8) =~= lit5);
    assert(sp_lit(s, i7, lit5) == Some(i8));
    assert(s.subrange(i8, i9) =~= pp2);
    assert(s[i9] == lit6[0]);
    assert(lit6[0] == '}');
    lemma_sp_pairs_ser(s, i8, b.entries, false);
    // literal 6, savings, closing brace
    assert(s.subrange(i9, i10) =~= lit6);
    assert(sp_lit(s, i9, lit6) == Some(i10));
    assert(s.subrange(i10, i11) =~= d3);
    assert(s[i11] == '}');
    assert(!is_digit('}'));
    lemma_sp_int_dec(s, i10, b.savings);
    // assembly
    let eps = pairs_of(b.entries, true);
    let cps = pairs_of(b.entries, false);
    assert(labels_ok(eps, cps));
    assert(zip_pairs(eps, cps) =~= b.entries);
    assert(spec_parse_budget(s) == Some(
        BudgetView {
            username: b.username,
            current_balance: b.current_balance,
            expected_income: b.expected_income,
            entries: zip_pairs(eps, cps),
            savings: b.savings,
        },
    ));
}

/// Appends the characters of a string slice to the buffer.
fn push_str_chars(out: &mut Vec<char>, s: &str)
    ensures
        final(out)@ == old(out)@ + s@,
{
    let mut cs = chars_of_str(s);
    out.append(&mut cs);
}

/// Appends the written (escaped) form of a string body.
#[verifier::rlimit(60)]
pub(crate) fn push_escaped(out: &mut Vec<char>, s: &str)
    ensures
        final(out)@ == old(out)@ + esc_str(s@),
{
    let v = chars_of_str(s);
    let n = v.len();
    let mut j: usize = 0;
    proof {
        assert(out@ =~= old(out)@ + esc_str(v@.take(0)));
    }
    while j < n
        invariant
            n == v@.len(),
            v@ == s@,
            j <= n,
            out@ == old(out)@ + esc_str(v@.take(j as int)),
        decreases n - j,
    {
        let c = v[j];
        if c == '"' {
            out.push('\\');
            out.push('"');
        } else if c == '\\' {
            out.push('\\');
            out.push('\\');
        } else if c == '\u{8}' {
            out.push('\\');
            out.push('b');
        } else if c == '\u{c}' {
            out.push('\\');
            out.push('f');
        } else if c == '\n' {
            out.push('\\');
            out.push('n');
        } else if c == '\r' {
            out.push('\\');
            out.push('r');
        } else if c == '\t' {
            out.push('\\');
            out.push('t');
        } else {
            out.push(c);
        }
        proof {
            lemma_esc_str_snoc(v@.take(j as int), v@[j as int]);
            assert(v@.take(j as int).push(v@[j as int]) =~= v@.take(j + 1));
            assert(out@ =~= old(out)@ + esc_str(v@.take(j + 1)));
        }
        j = j + 1;
    }
    proof {
        assert(v@.take(n as int) =~= v@);
    }
}

/// Appends one expense object (the pairs between the braces).
#[verifier::rlimit(60)]
fn push_pairs(out: &mut Vec<char>, b: &Budget, use_expected: bool)
    ensures
        final(out)@ == old(out)@ + ser_pairs(b@.entries, use_expected),
{
    let n = b.expense_count();
    let mut i: usize = 0;
    while i < n
        invariant
            n == b@.entries.len(),
            i <= n,
            out@ == old(out)@ + ser_pairs(b@.entries.take(i as int), use_expected),
        decreases n - i,
    {
        if i > 0 {
            out.push(',');
        }
        out.push('"');
        push_escaped(out, b.label_at(i).as_str());
        out.push('"');
        out.push(':');
        let v = if use_expected {
            b.expected_at(i)
        } else {
            b.current_at(i)
        };
        push_dec_i64(v, out);
        proof {
            let es = b@.entries;
            lemma_ser_pairs_snoc(es.take(i as int), es[i as int], use_expected);
            assert(es.take(i as int).push(es[i as int]) =~= es.take(i + 1));
            assert(out@ =~= old(out)@ + ser_pairs(es.take(i + 1), use_expected));
        }
        i = i + 1;
    }
    proof {
        assert(b@.entries.take(n as int) =~= b@.entries);
    }
}

/// Every label an expense-object parse yields is plain.
proof fn lemma_sp_pairs_plain(s: Seq<char>, i: int)
    ensures
        sp_pairs(s, i) matches Some(pe) ==> forall|k: int|
            0 <= k < pe.0.len() ==> is_plain((#[trigger] pe.0[k]).0),
    decreases s.len() - i,
{
    if 0 <= i < s.len() && s[i] == '}' {
    } else {
        lemma_sp_string_plain(s, i + 1);
        match sp_pair(s, i) {
            None => {}
            Some((p, j)) => {
                if j <= i {
                } else if j < s.len() && s[j] == ',' {
                    lemma_sp_pairs_plain(s, j + 1);
                    match sp_pairs(s, j + 1) {
                        None => {}
                        Some((ps, e)) => {
                            let whole = seq![p] + ps;
                            assert forall|k: int| 0 <= k < whole.len() implies is_plain(
                                (#[trigger] whole[k]).0,
                            ) by {
                                if k == 0 {
                                    assert(whole[0] == p);
                                } else {
                                    assert(whole[k] == ps[k - 1]);
                                }
                            }
                        }
                    }
                } else {
                    assert(seq![p][0] == p);
                }
            }
        }
    }
}

/// The view of a parsed pair list.
pub open spec fn pairs_view(ps: Seq<(String, i64)>) -> Seq<(Seq<char>, int)> {
    ps.map_values(|p: (String, i64)| (p.0@, p.1 as int))
}

pub(crate) fn e_lit(v: &Vec<char>, i: usize, lit: &str) -> (r: Option<usize>)
    ensures
        r matches Some(j) ==> sp_lit(v@, i as int, lit@) == Some(j as int) && j <= v@.len(),
        r is None ==> sp_lit(v@, i as int, lit@) is None,
{
    let cs = chars_of_str(lit);
    if i > v.len() || v.len() - i < cs.len() {
        return None;
    }
    let n = v.len();
    let mut k: usize = 0;
    while k < cs.len()
        invariant
            i + cs@.len() <= v@.len(),
            v@.len() == n,
            k <= cs@.len(),
            cs@ == lit@,
            forall|t: int| 0 <= t < k ==> v@[i + t] == cs@[t],
        decreases cs@.len() - k,
    {
        if v[i + k] != cs[k] {
            proof {
                assert(v@.subrange(i as int, i + lit@.len())[k as int] != lit@[k as int]);
            }
            return None;
        }
        k = k + 1;
    }
    proof {
        assert(v@.subrange(i as int, i + lit@.len()) =~= lit@);
    }
    Some(i + cs.len())
}

fn unesc(c: char) -> (r: Option<char>)
    ensures
        r == unesc_char(c),
{
    if c == '"' {
        Some('"')
    } else if c == '\\' {
        Some('\\')
    } else if c == '/' {
        Some('/')
    } else if c == 'b' {
        Some('\u{8}')
    } else if c == 'f' {
        Some('\u{c}')
    } else if c == 'n' {
        Some('\n')
    } else if c == 'r' {
        Some('\r')
    } else if c == 't' {
        Some('\t')
    } else {
        None
    }
}

pub(crate) fn e_string(v: &Vec<char>, i: usize) -> (r: Option<(Vec<char>, usize)>)
    ensures
        r matches Some(p) ==> sp_string(v@, i as int) == Some((p.0@, p.1 as int)) && i <= p.1
            < v@.len(),
        r is None ==> sp_string(v@, i as int) is None,
{
    if i >= v.len() {
        return None;
    }
    let mut out: Vec<char> = Vec::new();
    let mut cur: usize = i;
    proof {
        match sp_string(v@, i as int) {
            Some(p) => {
                assert(out@ + p.0 =~= p.0);
            }
            None => {}
        }
    }
    loop
        invariant
            i <= cur <= v@.len(),
            match sp_string(v@, cur as int) {
                Some(t) => sp_string(v@, i as int) == Some((out@ + t.0, t.1)),
                None => sp_string(v@, i as int) is None,
            },
        decreases v@.len() - cur,
    {
        if cur >= v.len() {
            return None;
        }
        let c = v[cur];
        if c == '"' {
            proof {
                assert(out@ + Seq::<char>::empty() =~= out@);
            }
            return Some((out, cur));
        }
        if c == '\\' {
            if cur + 1 >= v.len() {
                return None;
            }
            let code = v[cur + 1];
            match unesc(code) {
                None => {
                    return None;
                }
                Some(decoded) => {
                    out.push(decoded);
                    proof {
                        match sp_string(v@, cur + 2) {
                            Some(t2) => {
                                assert(sp_string(v@, cur as int) == Some((
                                    seq![decoded] + t2.0,
                                    t2.1,
                                )));
                                assert(out@ + t2.0 =~= out@.drop_last() + (seq![decoded] + t2.0));
                            }
                            None => {}
                        }
                    }
                    cur = cur + 2;
                }
            }
        } else {
            let n: u32 = c as u32;
            if n >= 32 {
                out.push(c);
                proof {
                    match sp_string(v@, cur + 1) {
                        Some(t2) => {
                            assert(sp_string(v@, cur as int) == Some((seq![c] + t2.0, t2.1)));
                            assert(out@ + t2.0 =~= out@.drop_last() + (seq![c] + t2.0));
                        }
                        None => {}
                    }
                }
                cur = cur + 1;
            } else {
                return None;
            }
        }
    }
}

fn e_int(v: &Vec<char>, i: usize) -> (r: Option<(i64, usize)>)
    ensures
        r matches Some(p) ==> sp_int(v@, i as int) == Some((p.0 as int, p.1 as int)) && i < p.1
            <= v@.len(),
        r is None ==> sp_int(v@, i as int) is None,
{
    if i >= v.len() {
        return None;
    }
    let neg = v[i] == '-';
    let j0: usize = if neg {
        i + 1
    } else {
        i
    };
    let mut j: usize = j0;
    let mut acc: Option<u64> = Some(0u64);
    loop
        invariant
            i < v@.len(),
            j0 <= j <= v@.len(),
            forall|t: int| j0 <= t < j ==> is_digit(#[trigger] v@[t]),
            acc matches Some(x) ==> x == digits_val(v@.subrange(j0 as int, j as int))
                && digits_val(v@.subrange(j0 as int, j as int)) <= u64::MAX,
            acc is None ==> digits_val(v@.subrange(j0 as int, j as int)) > u64::MAX,
        ensures
            j0 <= j <= v@.len(),
            forall|t: int| j0 <= t < j ==> is_digit(#[trigger] v@[t]),
            j == v@.len() || !is_digit(v@[j as int]),
            acc matches Some(x) ==> x == digits_val(v@.subrange(j0 as int, j as int))
                && digits_val(v@.subrange(j0 as int, j as int)) <= u64::MAX,
            acc is None ==> digits_val(v@.subrange(j0 as int, j as int)) > u64::MAX,
        decreases v@.len() - j,
    {
        if j >= v.len() {
            break;
        }
        let c = v[j];
        let n: u32 = c as u32;
        if !(48 <= n && n <= 57) {
            break;
        }
        let d: u64 = (n - 48) as u64;
        proof {
            assert(v@.subrange(j0 as int, j + 1).drop_last() =~= v@.subrange(j0 as int, j as int));
            assert(v@.subrange(j0 as int, j + 1).last() == c);
        }
        let ghost pre = digits_val(v@.subrange(j0 as int, j as int));
        acc = match acc {
            Some(x) => {
                match x.checked_mul(10) {
                    Some(y) => {
                        match y.checked_add(d) {
                            Some(z) => Some(z),
                            None => None,
                        }
                    }
                    None => None,
                }
            }
            None => {
                proof {
                    assert(pre * 10 + digit_val(c) > u64::MAX) by (nonlinear_arith)
                        requires
                            pre > u64::MAX,
                            digit_val(c) >= 0,
                    ;
                }
                None
            }
        };
        j = j + 1;
    }
    proof {
        lemma_digit_end_at(v@, j0 as int, j as int);
    }
    if j == j0 {
        return None;
    }
    match acc {
        None => None,
        Some(u) => {
            if neg {
                if u > 0x8000_0000_0000_0000u64 {
                    None
                } else if u == 0x8000_0000_0000_0000u64 {
                    Some((i64::MIN, j))
                } else {
                    Some((-(u as i64), j))
                }
            } else {
                if u > 0x7FFF_FFFF_FFFF_FFFFu64 {
                    None
                } else {
                    Some((u as i64, j))
                }
            }
        }
    }
}

fn e_pair(v: &Vec<char>, i: usize) -> (r: Option<(String, i64, usize)>)
    ensures
        r matches Some(p) ==> sp_pair(v@, i as int) == Some(((p.0@, p.1 as int), p.2 as int)) && i
            < p.2 <= v@.len(),
        r is None ==> sp_pair(v@, i as int) is None,
{
    if i >= v.len() {
        return None;
    }
    if v[i] != '"' {
        return None;
    }
    let Some((lblv, e)) = e_string(v, i + 1) else {
        return None;
    };
    if e + 1 >= v.len() {
        return None;
    }
    if v[e + 1] != ':' {
        return None;
    }
    let Some((val, j)) = e_int(v, e + 2) else {
        return None;
    };
    let lbl = string_from_chars(&lblv);
    Some((lbl, val, j))
}

fn e_pairs(v: &Vec<char>, i: usize) -> (r: Option<(Vec<(String, i64)>, usize)>)
    requires
        i <= v@.len(),
    ensures
        r matches Some(p) ==> sp_pairs(v@, i as int) == Some((pairs_view(p.0@), p.1 as int)) && p.1
            <= v@.len(),
        r is None ==> sp_pairs(v@, i as int) is None,
{
    let mut acc: Vec<(String, i64)> = Vec::new();
    let mut cur: usize = i;
    proof {
        match sp_pairs(v@, i as int) {
            Some(rp) => {
                assert(pairs_view(acc@) + rp.0 =~= rp.0);
            }
            None => {}
        }
    }
    loop
        invariant
            cur <= v@.len(),
            match sp_pairs(v@, cur as int) {
                Some(rp) => sp_pairs(v@, i as int) == Some((pairs_view(acc@) + rp.0, rp.1)),
                None => sp_pairs(v@, i as int) is None,
            },
        decreases v@.len() - cur,
    {
        if cur < v.len() {
            if v[cur] == '}' {
                proof {
                    assert(pairs_view(acc@) + Seq::<(Seq<char>, int)>::empty() =~= pairs_view(
                        acc@,
                    ));
                }
                return Some((acc, cur));
            }
        }
        let Some((lbl, val, j)) = e_pair(v, cur) else {
            return None;
        };
        let comma = if j < v.len() {
            v[j] == ','
        } else {
            false
        };
        let ghost p_spec = (lbl@, val as int);
        if comma {
            acc.push((lbl, val));
            proof {
                match sp_pairs(v@, j + 1) {
                    Some(rp2) => {
                        assert(sp_pairs(v@, cur as int) == Some((seq![p_spec] + rp2.0, rp2.1)));
                        assert(pairs_view(acc@) =~= pairs_view(acc@.drop_last()) + seq![p_spec]);
                        assert(pairs_view(acc@.drop_last()) + (seq![p_spec] + rp2.0) =~= pairs_view(
                            acc@,
                        ) + rp2.0);
                    }
                    None => {}
                }
            }
            cur = j + 1;
        } else {
            acc.push((lbl, val));
            proof {
                assert(sp_pairs(v@, cur as int) == Some((seq![p_spec], j as int)));
                assert(pairs_view(acc@) =~= pairs_view(acc@.drop_last()) + seq![p_spec]);
            }
            return Some((acc, j));
        }
    }
}

/// Parses the canonical JSON form of a budget; yields the budget when
/// and only when the text is exactly such a form.
#[verifier::loop_isolation(false)]
pub fn parse_budget(s: &str) -> (r: Option<Budget>)
    ensures
        r matches Some(b) ==> spec_parse_budget(s@) == Some(b@) && b@.wf(),
        r is None ==> spec_parse_budget(s@) is None,
{
    let v = chars_of_str(s);
    let Some(i0) = e_lit(&v, 0, "{\"username\":\"") else {
        return None;
    };
    let Some((unamev, i1)) = e_string(&v, i0) else {
        return None;
    };
    let Some(i2) = e_lit(&v, i1, "\",\"current_balance\":") else {
        return None;
    };
    let Some((bal, i3)) = e_int(&v, i2) else {
        return None;
    };
    let Some(i4) = e_lit(&v, i3, ",\"expected_income\":") else {
        return None;
    };
    let Some((inc, i5)) = e_int(&v, i4) else {
        return None;
    };
    let Some(i6) = e_lit(&v, i5, ",\"expected_expenses\":{") else {
        return None;
    };
    let Some((eps, i7)) = e_pairs(&v, i6) else {
        return None;
    };
    let Some(i8) = e_lit(&v, i7, "},\"current_expenses\":{") else {
        return None;
    };
    let Some((cps, i9)) = e_pairs(&v, i8) else {
        return None;
    };
    let Some(i10) = e_lit(&v, i9, "},\"savings\":") else {
        return None;
    };
    let Some((sav, i11)) = e_int(&v, i10) else {
        return None;
    };
    if !(i11 < v.len() && i11 + 1 == v.len()) {
        return None;
    }
    if v[i11] != '}' {
        return None;
    }
    let ghost eps_spec = pairs_view(eps@);
    let ghost cps_spec = pairs_view(cps@);
    if eps.len() != cps.len() {
        return None;
    }
    let n = eps.len();
    let mut k: usize = 0;
    while k < n
        invariant
            n == eps@.len() == cps@.len(),
            k <= n,
            eps_spec == pairs_view(eps@),
            cps_spec == pairs_view(cps@),
            forall|t: int| 0 <= t < k ==> (#[trigger] eps@[t]).0@ == cps@[t].0@,
        decreases n - k,
    {
        if eps[k].0 != cps[k].0 {
            proof {
                assert(eps_spec[k as int] == (eps@[k as int].0@, eps@[k as int].1 as int));
                assert(cps_spec[k as int] == (cps@[k as int].0@, cps@[k as int].1 as int));
                assert(!labels_ok(eps_spec, cps_spec));
            }
            return None;
        }
        k = k + 1;
    }
    // uniqueness of labels
    let mut a: usize = 0;
    while a < n
        invariant
            n == eps@.len() == cps@.len(),
            a <= n,
            eps_spec == pairs_view(eps@),
            forall|x: int, y: int| 0 <= x < y < a ==> (#[trigger] eps@[x]).0@ != (
            #[trigger] eps@[y]).0@,
        decreases n - a,
    {
        let mut bb: usize = 0;
        while bb < a
            invariant
                n == eps@.len(),
                bb <= a < n,
                eps_spec == pairs_view(eps@),
                forall|x: int, y: int| 0 <= x < y < a ==> (#[trigger] eps@[x]).0@ != (
                #[trigger] eps@[y]).0@,
                forall|x: int| 0 <= x < bb ==> (#[trigger] eps@[x]).0@ != eps@[a as int].0@,
            decreases a - bb,
        {
            if eps[bb].0 == eps[a].0 {
                proof {
                    assert(eps_spec[bb as int] == (eps@[bb as int].0@, eps@[bb as int].1 as int));
                    assert(eps_spec[a as int] == (eps@[a as int].0@, eps@[a as int].1 as int));
                    assert(!labels_ok(eps_spec, cps_spec));
                }
                return None;
            }
            bb = bb + 1;
        }
        a = a + 1;
    }
    // build the budget
    let mut expenses: Vec<Expense> = Vec::new();
    let mut t: usize = 0;
    while t < n
        invariant
            n == eps@.len() == cps@.len(),
            t <= n,
            expenses@.len() == t,
            forall|x: int|
                0 <= x < t ==> (#[trigger] expenses@[x]).label@ == eps@[x].0@
                    && expenses@[x].expected == eps@[x].1 && expenses@[x].current == cps@[x].1,
        decreases n - t,
    {
        let lbl = eps[t].0.clone();
        let ex = eps[t].1;
        let cu = cps[t].1;
        expenses.push(Expense { label: lbl, expected: ex, current: cu });
        t = t + 1;
    }
    let uname = string_from_chars(&unamev);
    let b = Budget::from_parts(uname, bal, inc, expenses, sav);
    proof {
        assert(labels_ok(eps_spec, cps_spec)) by {
            assert forall|x: int| 0 <= x < eps_spec.len() implies (#[trigger] eps_spec[x]).0
                == cps_spec[x].0 by {
                assert(eps@[x].0@ == cps@[x].0@);
            }
            assert forall|x: int, y: int| 0 <= x < y < eps_spec.len() implies (
            #[trigger] eps_spec[x]).0 != (#[trigger] eps_spec[y]).0 by {
                assert(eps@[x].0@ != eps@[y].0@);
            }
        }
        assert(b@.entries =~= zip_pairs(eps_spec, cps_spec));
        lemma_sp_string_plain(v@, i0 as int);
        lemma_sp_pairs_plain(v@, i6 as int);
        assert forall|x: int| 0 <= x < b@.entries.len() implies is_plain(
            (#[trigger] b@.entries[x]).0,
        ) by {
            assert(eps_spec[x].0 == b@.entries[x].0);
        }
        assert(b@.wf());
    }
    Some(b)
}

/// Renders a budget in its canonical JSON form.
pub fn serialize_budget(b: &Budget) -> (r: String)
    ensures
        r@ == ser_budget(b@),
{
    let mut out: Vec<char> = Vec::new();
    push_str_chars(&mut out, "{\"username\":\"");
    push_escaped(&mut out, b.username().as_str());
    push_str_chars(&mut out, "\",\"current_balance\":");
    push_dec_i64(b.balance(), &mut out);
    push_str_chars(&mut out, ",\"expected_income\":");
    push_dec_i64(b.income(), &mut out);
    push_str_chars(&mut out, ",\"expected_expenses\":{");
    push_pairs(&mut out, b, true);
    push_str_chars(&mut out, "},\"current_expenses\":{");
    push_pairs(&mut out, b, false);
    push_str_chars(&mut out, "},\"savings\":");
    push_dec_i64(b.saved(), &mut out);
    out.push('}');
    proof {
        assert(out@ =~= ser_budget(b@));
    }
    string_from_chars(&out)
}

} // verus!
