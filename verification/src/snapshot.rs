//! Snapshot text for the store: the counter map and the badge map each
//! become one JSON-style document, and a strict parser reads the documents
//! back. The store itself is the only writer of these files, so the parser
//! accepts exactly the canonical form the encoder produces; anything else
//! is a parse failure, which the loader answers with an empty map.

use vstd::prelude::*;

use crate::numtext::{dec_digits, digit_value, is_digit_char, push_u64, seq_value};
use crate::store::{Badge, BadgeRec, CounterEntry, badge_kvs, counter_kvs};
use crate::strtext::push_char;

verus! {

/// A name character as it stands in a quoted string: quote and backslash
/// get a backslash in front, everything else stands as itself.
pub open spec fn esc_char(c: char) -> Seq<char> {
    if c == '"' || c == '\\' {
        seq!['\\', c]
    } else {
        seq![c]
    }
}

/// A whole name in its quoted form, without the quotes.
pub open spec fn esc(s: Seq<char>) -> Seq<char>
    decreases s.len(),
{
    if s.len() == 0 {
        Seq::empty()
    } else {
        esc(s.drop_last()) + esc_char(s.last())
    }
}

/// One line of the counter document: indented quoted name, colon, count.
pub open spec fn counter_line(name: Seq<char>, count: u64) -> Seq<char> {
    seq![' ', ' ', '"'] + esc(name) + seq!['"', ':', ' '] + dec_digits(count as nat)
}

/// The counter lines joined by comma and newline.
pub open spec fn counters_body(kvs: Seq<(Seq<char>, u64)>) -> Seq<char>
    decreases kvs.len(),
{
    if kvs.len() == 0 {
        Seq::empty()
    } else if kvs.len() == 1 {
        counter_line(kvs[0].0, kvs[0].1)
    } else {
        counters_body(kvs.drop_last()) + seq![',', '\n'] + counter_line(
            kvs.last().0,
            kvs.last().1,
        )
    }
}

/// The whole counter document: an object with one line per counter.
pub open spec fn counters_doc(kvs: Seq<(Seq<char>, u64)>) -> Seq<char> {
    if kvs.len() == 0 {
        seq!['{', '}']
    } else {
        seq!['{', '\n'] + counters_body(kvs) + seq!['\n', '}']
    }
}

/// One field line of a badge object: indentation, quoted field name,
/// colon, decimal value.
pub open spec fn badge_field(label: Seq<char>, value: u64) -> Seq<char> {
    seq![' ', ' ', ' ', ' ', '"'] + label + seq!['"', ':', ' '] + dec_digits(value as nat)
}

/// One entry of the badge document: the badge keyed by its own name, its
/// fields one per line.
pub open spec fn badge_entry(rec: BadgeRec) -> Seq<char> {
    seq![' ', ' ', '"'] + esc(rec.name) + seq!['"', ':', ' ', '{', '\n'] + seq![
        ' ',
        ' ',
        ' ',
        ' ',
        '"',
        'n',
        'a',
        'm',
        'e',
        '"',
        ':',
        ' ',
        '"',
    ] + esc(rec.name) + seq!['"', ',', '\n'] + badge_field(
        seq!['c', 'o', 'u', 'n', 't'],
        rec.count,
    ) + seq![',', '\n'] + badge_field(
        seq!['c', 'r', 'e', 'a', 't', 'e', 'd', '_', 'a', 't'],
        rec.created_at,
    ) + seq![',', '\n'] + badge_field(
        seq!['l', 'a', 's', 't', '_', 'a', 'c', 'c', 'e', 's', 's', 'e', 'd'],
        rec.last_accessed,
    ) + seq!['\n', ' ', ' ', '}']
}

/// The badge entries joined by comma and newline.
pub open spec fn badges_body(kvs: Seq<(Seq<char>, BadgeRec)>) -> Seq<char>
    decreases kvs.len(),
{
    if kvs.len() == 0 {
        Seq::empty()
    } else if kvs.len() == 1 {
        badge_entry(kvs[0].1)
    } else {
        badges_body(kvs.drop_last()) + seq![',', '\n'] + badge_entry(kvs.last().1)
    }
}

/// The whole badge document.
pub open spec fn badges_doc(kvs: Seq<(Seq<char>, BadgeRec)>) -> Seq<char> {
    if kvs.len() == 0 {
        seq!['{', '}']
    } else {
        seq!['{', '\n'] + badges_body(kvs) + seq!['\n', '}']
    }
}

/// Appends the quoted form of `s`, without the quotes.
fn push_esc(out: &mut String, s: &str)
    ensures
        final(out)@ == old(out)@ + esc(s@),
{
    let n = s.unicode_len();
    let mut j: usize = 0;
    proof {
        assert(esc(s@.take(0)) =~= Seq::<char>::empty());
        assert(out@ =~= out@ + esc(s@.take(0)));
    }
    while j < n
        invariant
            n == s@.len(),
            j <= n,
            out@ == old(out)@ + esc(s@.take(j as int)),
        decreases n - j,
    {
        let c = s.get_char(j);
        if c == '"' || c == '\\' {
            push_char(out, '\\');
            push_char(out, c);
        } else {
            push_char(out, c);
        }
        proof {
            assert(s@.take(j + 1 as int).drop_last() =~= s@.take(j as int));
            assert(s@.take(j + 1 as int).last() == c);
            assert(esc(s@.take(j + 1 as int)) =~= esc(s@.take(j as int)) + esc_char(c));
            assert(out@ =~= old(out)@ + esc(s@.take(j + 1 as int)));
        }
        j += 1;
    }
    proof {
        assert(s@.take(n as int) =~= s@);
    }
}

/// The counter document for these entries.
pub fn counters_snapshot_text(entries: &Vec<CounterEntry>) -> (r: String)
    ensures
        r@ == counters_doc(counter_kvs(entries@)),
{
    let ghost kvs = counter_kvs(entries@);
    let n = entries.len();
    if n == 0 {
        let mut out = String::new();
        out.append("{}");
        proof {
            reveal_strlit("{}");
            assert(out@ =~= counters_doc(kvs));
        }
        return out;
    }
    let mut out = String::new();
    out.append("{\n");
    let mut i: usize = 0;
    proof {
        reveal_strlit("{\n");
    }
    while i < n
        invariant
            n == entries@.len(),
            n == counter_kvs(entries@).len(),
            0 < n,
            i <= n,
            i == 0 ==> out@ == "{\n"@,
            i > 0 ==> out@ == "{\n"@ + counters_body(counter_kvs(entries@).take(i as int)),
        decreases n - i,
    {
        if i > 0 {
            out.append(",\n");
        }
        out.append("  \"");
        push_esc(&mut out, entries[i].name.as_str());
        out.append("\": ");
        push_u64(&mut out, entries[i].count);
        proof {
            reveal_strlit("{\n");
            reveal_strlit(",\n");
            reveal_strlit("  \"");
            reveal_strlit("\": ");
            let kvs = counter_kvs(entries@);
            assert(kvs[i as int] == (entries@[i as int].name@, entries@[i as int].count));
            assert(counter_line(kvs[i as int].0, kvs[i as int].1)
                =~= "  \""@ + esc(entries@[i as int].name@) + "\": "@ + dec_digits(
                entries@[i as int].count as nat,
            ));
            if i == 0 {
                assert(kvs.take(1).len() == 1);
                assert(counters_body(kvs.take(1)) == counter_line(kvs.take(1)[0].0, kvs.take(1)[0].1));
                assert(kvs.take(1)[0] == kvs[0]);
                assert(out@ =~= "{\n"@ + counters_body(kvs.take(1)));
            } else {
                assert(kvs.take(i + 1 as int).drop_last() =~= kvs.take(i as int));
                assert(kvs.take(i + 1 as int).last() == kvs[i as int]);
                assert(counters_body(kvs.take(i + 1 as int)) =~= counters_body(kvs.take(i as int))
                    + seq![',', '\n'] + counter_line(kvs[i as int].0, kvs[i as int].1));
                assert(out@ =~= "{\n"@ + counters_body(kvs.take(i + 1 as int)));
            }
        }
        i += 1;
    }
    out.append("\n}");
    proof {
        reveal_strlit("{\n");
        reveal_strlit("\n}");
        assert(counter_kvs(entries@).take(n as int) =~= counter_kvs(entries@));
        assert(out@ =~= counters_doc(counter_kvs(entries@)));
    }
    out
}

/// The literal `lit` stands in `s` at position `i`.
pub open spec fn has_at(s: Seq<char>, i: int, lit: Seq<char>) -> bool {
    0 <= i && i + lit.len() <= s.len() && s.subrange(i, i + lit.len()) == lit
}

/// Reads a quoted name from position `i`, just after the opening quote, up
/// to and including the closing quote. A backslash must be followed by a
/// quote or a backslash; anything else is not canonical and fails.
pub open spec fn parse_qstr(s: Seq<char>, i: int) -> Option<(Seq<char>, int)>
    decreases s.len() - i,
    when 0 <= i <= s.len()
{
    if i >= s.len() {
        None
    } else if s[i] == '"' {
        Some((Seq::empty(), i + 1))
    } else if s[i] == '\\' {
        if i + 1 < s.len() && (s[i + 1] == '"' || s[i + 1] == '\\') {
            match parse_qstr(s, i + 2) {
                Option::None => None,
                Option::Some((t, j)) => Some((seq![s[i + 1]] + t, j)),
            }
        } else {
            None
        }
    } else {
        match parse_qstr(s, i + 1) {
            Option::None => None,
            Option::Some((t, j)) => Some((seq![s[i]] + t, j)),
        }
    }
}

/// First position at or after `i` that does not hold a digit.
pub open spec fn digit_run_end(s: Seq<char>, i: int) -> int
    decreases s.len() - i,
    when 0 <= i <= s.len()
{
    if i < s.len() && is_digit_char(s[i]) {
        digit_run_end(s, i + 1)
    } else {
        i
    }
}

/// Reads a decimal number from position `i`: at least one digit, no
/// leading zero, value within `u64`.
pub open spec fn parse_num(s: Seq<char>, i: int) -> Option<(u64, int)> {
    let e = digit_run_end(s, i);
    if e == i {
        None
    } else if s[i] == '0' && e != i + 1 {
        None
    } else if seq_value(s.subrange(i, e)) > u64::MAX {
        None
    } else {
        Some((seq_value(s.subrange(i, e)) as u64, e))
    }
}

/// Reads the counter lines from position `i` to the closing brace, which
/// must end the document. `fuel` bounds the recursion; any value at least
/// the number of lines gives the same answer.
pub open spec fn parse_counter_entries(s: Seq<char>, i: int, fuel: nat) -> Option<
    (Seq<(Seq<char>, u64)>, int),
>
    decreases fuel,
{
    if fuel == 0 {
        None
    } else if !has_at(s, i, seq![' ', ' ', '"']) {
        None
    } else {
        match parse_qstr(s, i + 3) {
            Option::None => None,
            Option::Some((name, j)) => {
                if !has_at(s, j, seq![':', ' ']) {
                    None
                } else {
                    match parse_num(s, j + 2) {
                        Option::None => None,
                        Option::Some((v, p)) => {
                            if has_at(s, p, seq![',', '\n']) {
                                match parse_counter_entries(s, p + 2, (fuel - 1) as nat) {
                                    Option::None => None,
                                    Option::Some((rest, e)) => Some((seq![(name, v)] + rest, e)),
                                }
                            } else if has_at(s, p, seq!['\n', '}']) && p + 2 == s.len() {
                                Some((seq![(name, v)], p))
                            } else {
                                None
                            }
                        },
                    }
                }
            },
        }
    }
}

/// Reads a whole counter document.
pub open spec fn parse_counters_doc(s: Seq<char>) -> Option<Seq<(Seq<char>, u64)>> {
    if s == seq!['{', '}'] {
        Some(Seq::empty())
    } else if has_at(s, 0, seq!['{', '\n']) {
        match parse_counter_entries(s, 2, s.len() as nat) {
            Option::None => None,
            Option::Some((kvs, _p)) => Some(kvs),
        }
    } else {
        None
    }
}

/// A window inside a known window: if `w` stands in `s` at `i`, any part
/// of `w` stands in `s` at the corresponding offset.
pub proof fn lemma_subrange_within(s: Seq<char>, i: int, w: Seq<char>, a: int, b: int)
    requires
        0 <= i,
        i + w.len() <= s.len(),
        s.subrange(i, i + w.len()) == w,
        0 <= a <= b <= w.len(),
    ensures
        s.subrange(i + a, i + b) == w.subrange(a, b),
{
    assert forall|k: int| 0 <= k < b - a implies s.subrange(i + a, i + b)[k] == w.subrange(
        a,
        b,
    )[k] by {
        assert(s[i + a + k] == s.subrange(i, i + w.len())[a + k]);
    }
    assert(s.subrange(i + a, i + b) =~= w.subrange(a, b));
}

/// `esc` unfolds at the front as well as at the back.
pub proof fn lemma_esc_front(s: Seq<char>)
    requires
        s.len() >= 1,
    ensures
        esc(s) == esc_char(s[0]) + esc(s.skip(1)),
    decreases s.len(),
{
    if s.len() == 1 {
        assert(s.drop_last() =~= Seq::<char>::empty());
        assert(s.skip(1) =~= Seq::<char>::empty());
        assert(esc(s) =~= esc_char(s[0]) + esc(s.skip(1)));
    } else {
        lemma_esc_front(s.drop_last());
        assert(s.drop_last()[0] == s[0]);
        assert(s.drop_last().skip(1) =~= s.skip(1).drop_last());
        assert(s.skip(1).last() == s.last());
        assert(esc(s) == esc(s.drop_last()) + esc_char(s.last()));
        assert(esc(s.skip(1)) == esc(s.skip(1).drop_last()) + esc_char(s.skip(1).last()));
        assert(esc(s) =~= esc_char(s[0]) + esc(s.skip(1)));
    }
}

/// The quoted form of `name`, followed by a closing quote, parses back to
/// `name`, ending just past the quote.
pub proof fn lemma_parse_qstr_of_esc(s: Seq<char>, i: int, name: Seq<char>)
    requires
        0 <= i,
        i + esc(name).len() + 1 <= s.len(),
        s.subrange(i, i + esc(name).len() + 1) == esc(name) + seq!['"'],
    ensures
        parse_qstr(s, i) == Some((name, i + esc(name).len() + 1)),
    decreases name.len(),
{
    let w = s.subrange(i, i + esc(name).len() + 1);
    if name.len() == 0 {
        assert(esc(name) =~= Seq::<char>::empty());
        assert(s[i] == s.subrange(i, i + w.len())[0]);
        assert(w[0] == '"');
    } else {
        lemma_esc_front(name);
        let c = name[0];
        let rest = name.skip(1);
        assert(esc(name) == esc_char(c) + esc(rest));
        if c == '"' || c == '\\' {
            assert(esc_char(c) =~= seq!['\\', c]);
            assert(s[i] == s.subrange(i, i + w.len())[0]);
            assert(w[0] == '\\');
            assert(s[i + 1] == s.subrange(i, i + w.len())[1]);
            assert(w[1] == c);
            assert(w.subrange(2, w.len() as int) =~= esc(rest) + seq!['"']);
            lemma_subrange_within(s, i, w, 2, w.len() as int);
            lemma_parse_qstr_of_esc(s, i + 2, rest);
            assert(seq![s[i + 1]] + rest =~= name);
        } else {
            assert(esc_char(c) =~= seq![c]);
            assert(s[i] == s.subrange(i, i + w.len())[0]);
            assert(w[0] == c);
            assert(w.subrange(1, w.len() as int) =~= esc(rest) + seq!['"']);
            lemma_subrange_within(s, i, w, 1, w.len() as int);
            lemma_parse_qstr_of_esc(s, i + 1, rest);
            assert(seq![s[i]] + rest =~= name);
        }
    }
}

/// A run of digits at `i`, followed by a non-digit or the end, is exactly
/// the digit run the parser sees.
pub proof fn lemma_digit_run_of(s: Seq<char>, i: int, ds: Seq<char>)
    requires
        0 <= i,
        i + ds.len() <= s.len(),
        s.subrange(i, i + ds.len()) == ds,
        forall|k: int| 0 <= k < ds.len() ==> is_digit_char(#[trigger] ds[k]),
        i + ds.len() == s.len() || !is_digit_char(s[i + ds.len()]),
    ensures
        digit_run_end(s, i) == i + ds.len(),
    decreases ds.len(),
{
    if ds.len() == 0 {
    } else {
        assert(s[i] == s.subrange(i, i + ds.len())[0]);
        assert(is_digit_char(s[i]));
        assert(s.subrange(i + 1, i + 1 + ds.skip(1).len()) =~= ds.skip(1)) by {
            assert(forall|k: int|
                0 <= k < ds.len() ==> s[i + k] == #[trigger] s.subrange(i, i + ds.len())[k]);
        }
        assert(forall|k: int| 0 <= k < ds.skip(1).len() ==> is_digit_char(#[trigger] ds.skip(1)[k]));
        lemma_digit_run_of(s, i + 1, ds.skip(1));
    }
}

/// The decimal rendering of `n` at position `i`, followed by a non-digit
/// or the end, parses back to `n`.
pub proof fn lemma_parse_num_of_dec(s: Seq<char>, i: int, n: u64)
    requires
        0 <= i,
        i + dec_digits(n as nat).len() <= s.len(),
        s.subrange(i, i + dec_digits(n as nat).len()) == dec_digits(n as nat),
        i + dec_digits(n as nat).len() == s.len() || !is_digit_char(
            s[i + dec_digits(n as nat).len()],
        ),
    ensures
        parse_num(s, i) == Some((n, i + dec_digits(n as nat).len())),
{
    let ds = dec_digits(n as nat);
    crate::numtext::lemma_dec_digits_value(n as nat);
    lemma_digit_run_of(s, i, ds);
    assert(digit_run_end(s, i) == i + ds.len());
    assert(seq_value(s.subrange(i, i + ds.len())) == n);
    assert(s[i] == ds[0]);
    if s[i] == '0' {
        crate::numtext::lemma_dec_digits_no_leading_zero(n as nat);
        assert(n == 0);
        assert(ds.len() == 1);
    }
}

/// `counters_body` unfolds at the front as well as at the back.
pub proof fn lemma_counters_body_front(kvs: Seq<(Seq<char>, u64)>)
    requires
        kvs.len() >= 1,
    ensures
        counters_body(kvs) == counter_line(kvs[0].0, kvs[0].1) + (if kvs.len() == 1 {
            Seq::<char>::empty()
        } else {
            seq![',', '\n'] + counters_body(kvs.skip(1))
        }),
    decreases kvs.len(),
{
    if kvs.len() == 1 {
        assert(counters_body(kvs) =~= counter_line(kvs[0].0, kvs[0].1) + Seq::<char>::empty());
    } else {
        lemma_counters_body_front(kvs.drop_last());
        assert(kvs.drop_last()[0] == kvs[0]);
        assert(kvs.drop_last().skip(1) =~= kvs.skip(1).drop_last());
        assert(kvs.skip(1).last() == kvs.last());
        if kvs.len() == 2 {
            assert(counters_body(kvs.skip(1)) == counter_line(kvs.skip(1)[0].0, kvs.skip(1)[0].1));
            assert(kvs.skip(1)[0] == kvs[1]);
            assert(counters_body(kvs) =~= counter_line(kvs[0].0, kvs[0].1) + (seq![',', '\n']
                + counters_body(kvs.skip(1))));
        } else {
            assert(counters_body(kvs.skip(1)) == counters_body(kvs.skip(1).drop_last()) + seq![
                ',',
                '\n',
            ] + counter_line(kvs.skip(1).last().0, kvs.skip(1).last().1));
            assert(counters_body(kvs) =~= counter_line(kvs[0].0, kvs[0].1) + (seq![',', '\n']
                + counters_body(kvs.skip(1))));
        }
    }
}

/// Each counter line is at least one character, so the body is at least as
/// long as the number of entries.
pub proof fn lemma_counters_body_len(kvs: Seq<(Seq<char>, u64)>)
    ensures
        counters_body(kvs).len() >= kvs.len(),
    decreases kvs.len(),
{
    if kvs.len() == 0 {
    } else if kvs.len() == 1 {
        crate::numtext::lemma_dec_digits_value(kvs[0].1 as nat);
    } else {
        lemma_counters_body_len(kvs.drop_last());
        crate::numtext::lemma_dec_digits_value(kvs.last().1 as nat);
    }
}

/// The encoded counter lines, ending in the closing brace at the end of
/// the document, parse back to exactly the encoded entries.
#[verifier::rlimit(100)]
pub proof fn lemma_parse_counter_entries_of(
    s: Seq<char>,
    i: int,
    kvs: Seq<(Seq<char>, u64)>,
    fuel: nat,
)
    requires
        0 <= i <= s.len(),
        kvs.len() >= 1,
        fuel >= kvs.len(),
        s.subrange(i, s.len() as int) == counters_body(kvs) + seq!['\n', '}'],
    ensures
        parse_counter_entries(s, i, fuel) == Some((kvs, s.len() - 2)),
    decreases kvs.len(),
{
    lemma_counters_body_front(kvs);
    let name = kvs[0].0;
    let v = kvs[0].1;
    let en = esc(name);
    let ds = dec_digits(v as nat);
    let w = s.subrange(i, s.len() as int);
    let enl = en.len() as int;
    let dsl = ds.len() as int;
    let linelen = 3 + enl + 3 + dsl;
    assert(counter_line(name, v) == seq![' ', ' ', '"'] + en + seq!['"', ':', ' '] + ds);
    assert(counter_line(name, v).len() == linelen);
    assert(w.len() == s.len() - i);
    assert(s.subrange(i, i + w.len()) == w);
    let tail: Seq<char> = if kvs.len() == 1 {
        seq!['\n', '}']
    } else {
        seq![',', '\n'] + counters_body(kvs.skip(1)) + seq!['\n', '}']
    };
    assert(w =~= counter_line(name, v) + tail);
    assert(w.len() == linelen + tail.len());
    assert(w.subrange(0, 3) =~= seq![' ', ' ', '"']);
    lemma_subrange_within(s, i, w, 0, 3);
    assert(has_at(s, i, seq![' ', ' ', '"']));
    assert(w.subrange(3, 3 + enl + 1) =~= en + seq!['"']);
    lemma_subrange_within(s, i, w, 3, 3 + enl + 1);
    lemma_parse_qstr_of_esc(s, i + 3, name);
    let j = i + 3 + enl + 1;
    assert(w.subrange(3 + enl + 1, 3 + enl + 3) =~= seq![':', ' ']);
    lemma_subrange_within(s, i, w, 3 + enl + 1, 3 + enl + 3);
    assert(has_at(s, j, seq![':', ' ']));
    assert(w.subrange(3 + enl + 3, linelen) =~= ds);
    lemma_subrange_within(s, i, w, 3 + enl + 3, linelen);
    let p = j + 2 + dsl;
    assert(p == i + linelen);
    assert(s[p] == s.subrange(i, i + w.len())[linelen]);
    assert(w[linelen] == tail[0]);
    if kvs.len() == 1 {
        assert(tail[0] == '\n');
        assert(!is_digit_char('\n'));
        lemma_parse_num_of_dec(s, j + 2, v);
        assert(w.subrange(linelen, linelen + 2) =~= seq!['\n', '}']);
        lemma_subrange_within(s, i, w, linelen, linelen + 2);
        assert(has_at(s, p, seq!['\n', '}']));
        assert(p + 2 == s.len());
        assert(!has_at(s, p, seq![',', '\n'])) by {
            if has_at(s, p, seq![',', '\n']) {
                assert(s.subrange(p, p + 2)[0] == ',');
                assert(s[p] == ',');
            }
        }
        assert(seq![(name, v)] =~= kvs);
    } else {
        assert(tail[0] == ',');
        assert(!is_digit_char(','));
        lemma_parse_num_of_dec(s, j + 2, v);
        assert(w.subrange(linelen, linelen + 2) =~= seq![',', '\n']);
        lemma_subrange_within(s, i, w, linelen, linelen + 2);
        assert(has_at(s, p, seq![',', '\n']));
        assert(w.subrange(linelen + 2, w.len() as int) =~= counters_body(kvs.skip(1)) + seq![
            '\n',
            '}',
        ]);
        lemma_subrange_within(s, i, w, linelen + 2, w.len() as int);
        assert(s.subrange(p + 2, s.len() as int) == counters_body(kvs.skip(1)) + seq![
            '\n',
            '}',
        ]);
        lemma_parse_counter_entries_of(s, p + 2, kvs.skip(1), (fuel - 1) as nat);
        assert(seq![(name, v)] + kvs.skip(1) =~= kvs);
    }
}

/// Round trip for the counter document: encoding any entries and parsing
/// the text back yields exactly those entries.
pub proof fn lemma_counters_round_trip(kvs: Seq<(Seq<char>, u64)>)
    ensures
        parse_counters_doc(counters_doc(kvs)) == Some(kvs),
{
    let s = counters_doc(kvs);
    if kvs.len() == 0 {
        assert(s == seq!['{', '}']);
        assert(parse_counters_doc(s) == Some(Seq::<(Seq<char>, u64)>::empty()));
        assert(Seq::<(Seq<char>, u64)>::empty() =~= kvs);
    } else {
        lemma_counters_body_len(kvs);
        assert(s.len() == counters_body(kvs).len() + 4);
        assert(s.len() > 2);
        assert(s != seq!['{', '}']) by {
            if s == seq!['{', '}'] {
                assert(s.len() == 2);
            }
        }
        assert(has_at(s, 0, seq!['{', '\n'])) by {
            assert(s.subrange(0, 2) =~= seq!['{', '\n']);
        }
        assert(s.subrange(2, s.len() as int) =~= counters_body(kvs) + seq!['\n', '}']);
        lemma_parse_counter_entries_of(s, 2, kvs, s.len() as nat);
    }
}

/// Opening of an entry: indentation and the key's opening quote.
pub open spec fn lit_key_open() -> Seq<char> {
    seq![' ', ' ', '"']
}

/// From the key's closing quote to the opening quote of the name field.
pub open spec fn lit_name_label() -> Seq<char> {
    seq![':', ' ', '{', '\n', ' ', ' ', ' ', ' ', '"', 'n', 'a', 'm', 'e', '"', ':', ' ', '"']
}

/// From the name's closing quote to the count value.
pub open spec fn lit_count_label() -> Seq<char> {
    seq![',', '\n', ' ', ' ', ' ', ' ', '"', 'c', 'o', 'u', 'n', 't', '"', ':', ' ']
}

/// From the count value to the creation time value.
pub open spec fn lit_created_label() -> Seq<char> {
    seq![
        ',',
        '\n',
        ' ',
        ' ',
        ' ',
        ' ',
        '"',
        'c',
        'r',
        'e',
        'a',
        't',
        'e',
        'd',
        '_',
        'a',
        't',
        '"',
        ':',
        ' ',
    ]
}

/// From the creation time value to the access time value.
pub open spec fn lit_last_label() -> Seq<char> {
    seq![
        ',',
        '\n',
        ' ',
        ' ',
        ' ',
        ' ',
        '"',
        'l',
        'a',
        's',
        't',
        '_',
        'a',
        'c',
        'c',
        'e',
        's',
        's',
        'e',
        'd',
        '"',
        ':',
        ' ',
    ]
}

/// End of an entry: the badge object's closing brace on its own line.
pub open spec fn lit_badge_close() -> Seq<char> {
    seq!['\n', ' ', ' ', '}']
}

/// Reads one badge entry from position `i`, up to and including its
/// closing brace. The key must equal the badge's own name field.
pub open spec fn parse_badge_entry(s: Seq<char>, i: int) -> Option<((Seq<char>, BadgeRec), int)> {
    if !has_at(s, i, lit_key_open()) {
        None
    } else {
        match parse_qstr(s, i + 3) {
            Option::None => None,
            Option::Some((key, j)) => {
                if !has_at(s, j, lit_name_label()) {
                    None
                } else {
                    match parse_qstr(s, j + lit_name_label().len()) {
                        Option::None => None,
                        Option::Some((nm, j2)) => {
                            if nm != key || !has_at(s, j2, lit_count_label()) {
                                None
                            } else {
                                match parse_num(s, j2 + lit_count_label().len()) {
                                    Option::None => None,
                                    Option::Some((count, p1)) => {
                                        if !has_at(s, p1, lit_created_label()) {
                                            None
                                        } else {
                                            match parse_num(s, p1 + lit_created_label().len()) {
                                                Option::None => None,
                                                Option::Some((created, p2)) => {
                                                    if !has_at(s, p2, lit_last_label()) {
                                                        None
                                                    } else {
                                                        match parse_num(
                                                            s,
                                                            p2 + lit_last_label().len(),
                                                        ) {
                                                            Option::None => None,
                                                            Option::Some((last, p3)) => {
                                                                if !has_at(
                                                                    s,
                                                                    p3,
                                                                    lit_badge_close(),
                                                                ) {
                                                                    None
                                                                } else {
                                                                    Some(
                                                                        (
                                                                            (
                                                                                key,
                                                                                BadgeRec {
                                                                                    name: key,
                                                                                    count: count,
                                                                                    created_at:
                                                                                        created,
                                                                                    last_accessed:
                                                                                        last,
                                                                                },
                                                                            ),
                                                                            p3 + 4,
                                                                        ),
                                                                    )
                                                                }
                                                            },
                                                        }
                                                    }
                                                },
                                            }
                                        }
                                    },
                                }
                            }
                        },
                    }
                }
            },
        }
    }
}

/// Reads the badge entries from position `i` to the closing brace, which
/// must end the document.
pub open spec fn parse_badge_entries(s: Seq<char>, i: int, fuel: nat) -> Option<
    (Seq<(Seq<char>, BadgeRec)>, int),
>
    decreases fuel,
{
    if fuel == 0 {
        None
    } else {
        match parse_badge_entry(s, i) {
            Option::None => None,
            Option::Some((kv, p)) => {
                if has_at(s, p, seq![',', '\n']) {
                    match parse_badge_entries(s, p + 2, (fuel - 1) as nat) {
                        Option::None => None,
                        Option::Some((rest, e)) => Some((seq![kv] + rest, e)),
                    }
                } else if has_at(s, p, seq!['\n', '}']) && p + 2 == s.len() {
                    Some((seq![kv], p))
                } else {
                    None
                }
            },
        }
    }
}

/// Reads a whole badge document.
pub open spec fn parse_badges_doc(s: Seq<char>) -> Option<Seq<(Seq<char>, BadgeRec)>> {
    if s == seq!['{', '}'] {
        Some(Seq::empty())
    } else if has_at(s, 0, seq!['{', '\n']) {
        match parse_badge_entries(s, 2, s.len() as nat) {
            Option::None => None,
            Option::Some((kvs, _p)) => Some(kvs),
        }
    } else {
        None
    }
}

/// Splitting a window: if `x + y` stands in `s` at `i`, then `x` stands
/// at `i` and `y` just after it.
pub proof fn lemma_split_at(s: Seq<char>, i: int, x: Seq<char>, y: Seq<char>)
    requires
        0 <= i,
        i + x.len() + y.len() <= s.len(),
        s.subrange(i, i + x.len() + y.len()) == x + y,
    ensures
        s.subrange(i, i + x.len()) == x,
        s.subrange(i + x.len(), i + x.len() + y.len()) == y,
{
    let w = x + y;
    lemma_subrange_within(s, i, w, 0, x.len() as int);
    assert(w.subrange(0, x.len() as int) =~= x);
    lemma_subrange_within(s, i, w, x.len() as int, w.len() as int);
    assert(w.subrange(x.len() as int, w.len() as int) =~= y);
}

/// One encoded badge entry parses back to the badge it encodes; keyed by
/// its own name, as the encoder writes it.
#[verifier::rlimit(100)]
pub proof fn lemma_parse_badge_entry_of(s: Seq<char>, i: int, rec: BadgeRec)
    requires
        0 <= i,
        i + badge_entry(rec).len() <= s.len(),
        s.subrange(i, i + badge_entry(rec).len()) == badge_entry(rec),
    ensures
        parse_badge_entry(s, i) == Some(((rec.name, rec), i + badge_entry(rec).len())),
{
    crate::numtext::lemma_dec_digits_value(rec.count as nat);
    crate::numtext::lemma_dec_digits_value(rec.created_at as nat);
    crate::numtext::lemma_dec_digits_value(rec.last_accessed as nat);
    let q = esc(rec.name) + seq!['"'];
    let d1 = dec_digits(rec.count as nat);
    let d2 = dec_digits(rec.created_at as nat);
    let d3 = dec_digits(rec.last_accessed as nat);
    let r9 = d3 + lit_badge_close();
    let r8 = lit_last_label() + r9;
    let r7 = d2 + r8;
    let r6 = lit_created_label() + r7;
    let r5 = d1 + r6;
    let r4 = lit_count_label() + r5;
    let r3 = q + r4;
    let r2 = lit_name_label() + r3;
    let r1 = q + r2;
    let w = badge_entry(rec);
    assert(w =~= lit_key_open() + r1);
    let i1 = i + 3;
    lemma_split_at(s, i, lit_key_open(), r1);
    assert(has_at(s, i, lit_key_open()));
    let i2 = i1 + q.len() as int;
    lemma_split_at(s, i1, q, r2);
    lemma_parse_qstr_of_esc(s, i1, rec.name);
    let i3 = i2 + 17;
    lemma_split_at(s, i2, lit_name_label(), r3);
    assert(has_at(s, i2, lit_name_label()));
    let i4 = i3 + q.len() as int;
    lemma_split_at(s, i3, q, r4);
    lemma_parse_qstr_of_esc(s, i3, rec.name);
    let i5 = i4 + 15;
    lemma_split_at(s, i4, lit_count_label(), r5);
    assert(has_at(s, i4, lit_count_label()));
    let i6 = i5 + d1.len() as int;
    lemma_split_at(s, i5, d1, r6);
    assert(s[i6] == s.subrange(i6, i6 + r6.len())[0]);
    assert(r6[0] == ',');
    assert(!is_digit_char(','));
    lemma_parse_num_of_dec(s, i5, rec.count);
    let i7 = i6 + 20;
    lemma_split_at(s, i6, lit_created_label(), r7);
    assert(has_at(s, i6, lit_created_label()));
    let i8 = i7 + d2.len() as int;
    lemma_split_at(s, i7, d2, r8);
    assert(s[i8] == s.subrange(i8, i8 + r8.len())[0]);
    assert(r8[0] == ',');
    lemma_parse_num_of_dec(s, i7, rec.created_at);
    let i9 = i8 + 23;
    lemma_split_at(s, i8, lit_last_label(), r9);
    assert(has_at(s, i8, lit_last_label()));
    let i10 = i9 + d3.len() as int;
    lemma_split_at(s, i9, d3, lit_badge_close());
    assert(s[i10] == s.subrange(i10, i10 + 4)[0]);
    assert(lit_badge_close()[0] == '\n');
    assert(!is_digit_char('\n'));
    lemma_parse_num_of_dec(s, i9, rec.last_accessed);
    assert(has_at(s, i10, lit_badge_close()));
    assert(i10 + 4 == i + w.len());
}

/// `badges_body` unfolds at the front as well as at the back.
pub proof fn lemma_badges_body_front(kvs: Seq<(Seq<char>, BadgeRec)>)
    requires
        kvs.len() >= 1,
    ensures
        badges_body(kvs) == badge_entry(kvs[0].1) + (if kvs.len() == 1 {
            Seq::<char>::empty()
        } else {
            seq![',', '\n'] + badges_body(kvs.skip(1))
        }),
    decreases kvs.len(),
{
    if kvs.len() == 1 {
        assert(badges_body(kvs) =~= badge_entry(kvs[0].1) + Seq::<char>::empty());
    } else {
        lemma_badges_body_front(kvs.drop_last());
        assert(kvs.drop_last()[0] == kvs[0]);
        assert(kvs.drop_last().skip(1) =~= kvs.skip(1).drop_last());
        assert(kvs.skip(1).last() == kvs.last());
        if kvs.len() == 2 {
            assert(badges_body(kvs.skip(1)) == badge_entry(kvs.skip(1)[0].1));
            assert(kvs.skip(1)[0] == kvs[1]);
            assert(badges_body(kvs) =~= badge_entry(kvs[0].1) + (seq![',', '\n'] + badges_body(
                kvs.skip(1),
            )));
        } else {
            assert(badges_body(kvs.skip(1)) == badges_body(kvs.skip(1).drop_last()) + seq![
                ',',
                '\n',
            ] + badge_entry(kvs.skip(1).last().1));
            assert(badges_body(kvs) =~= badge_entry(kvs[0].1) + (seq![',', '\n'] + badges_body(
                kvs.skip(1),
            )));
        }
    }
}

/// Each badge entry is at least one character, so the body is at least as
/// long as the number of entries.
pub proof fn lemma_badges_body_len(kvs: Seq<(Seq<char>, BadgeRec)>)
    ensures
        badges_body(kvs).len() >= kvs.len(),
    decreases kvs.len(),
{
    if kvs.len() == 0 {
    } else if kvs.len() == 1 {
    } else {
        lemma_badges_body_len(kvs.drop_last());
    }
}

/// The encoded badge entries, ending in the closing brace at the end of
/// the document, parse back to exactly the encoded badges, provided each
/// badge is keyed by its own name, as the store keeps them.
#[verifier::rlimit(100)]
pub proof fn lemma_parse_badge_entries_of(
    s: Seq<char>,
    i: int,
    kvs: Seq<(Seq<char>, BadgeRec)>,
    fuel: nat,
)
    requires
        0 <= i <= s.len(),
        kvs.len() >= 1,
        fuel >= kvs.len(),
        forall|k: int| 0 <= k < kvs.len() ==> (#[trigger] kvs[k].1).name == kvs[k].0,
        s.subrange(i, s.len() as int) == badges_body(kvs) + seq!['\n', '}'],
    ensures
        parse_badge_entries(s, i, fuel) == Some((kvs, s.len() - 2)),
    decreases kvs.len(),
{
    lemma_badges_body_front(kvs);
    let rec = kvs[0].1;
    let w = s.subrange(i, s.len() as int);
    let el = badge_entry(rec).len() as int;
    assert(s.subrange(i, i + w.len()) == w);
    let tail: Seq<char> = if kvs.len() == 1 {
        seq!['\n', '}']
    } else {
        seq![',', '\n'] + badges_body(kvs.skip(1)) + seq!['\n', '}']
    };
    assert(w =~= badge_entry(rec) + tail);
    assert(w.subrange(0, el) =~= badge_entry(rec));
    lemma_subrange_within(s, i, w, 0, el);
    lemma_parse_badge_entry_of(s, i, rec);
    assert(kvs[0].0 == rec.name);
    assert(kvs[0] == (rec.name, rec));
    let p = i + el;
    if kvs.len() == 1 {
        assert(w.subrange(el, el + 2) =~= seq!['\n', '}']);
        lemma_subrange_within(s, i, w, el, el + 2);
        assert(has_at(s, p, seq!['\n', '}']));
        assert(p + 2 == s.len());
        assert(!has_at(s, p, seq![',', '\n'])) by {
            if has_at(s, p, seq![',', '\n']) {
                assert(s.subrange(p, p + 2)[0] == ',');
                assert(s.subrange(p, p + 2)[0] == '\n');
            }
        }
        assert(seq![(rec.name, rec)] =~= kvs);
    } else {
        assert(w.subrange(el, el + 2) =~= seq![',', '\n']);
        lemma_subrange_within(s, i, w, el, el + 2);
        assert(has_at(s, p, seq![',', '\n']));
        assert(w.subrange(el + 2, w.len() as int) =~= badges_body(kvs.skip(1)) + seq!['\n', '}']);
        lemma_subrange_within(s, i, w, el + 2, w.len() as int);
        lemma_badges_body_len(kvs.skip(1));
        assert(forall|k: int|
            0 <= k < kvs.skip(1).len() ==> (#[trigger] kvs.skip(1)[k].1).name == kvs.skip(1)[k].0);
        lemma_parse_badge_entries_of(s, p + 2, kvs.skip(1), (fuel - 1) as nat);
        assert(seq![(rec.name, rec)] + kvs.skip(1) =~= kvs);
    }
}

/// Round trip for the badge document: encoding any badges keyed by their
/// own names and parsing the text back yields exactly those badges.
pub proof fn lemma_badges_round_trip(kvs: Seq<(Seq<char>, BadgeRec)>)
    requires
        forall|k: int| 0 <= k < kvs.len() ==> (#[trigger] kvs[k].1).name == kvs[k].0,
    ensures
        parse_badges_doc(badges_doc(kvs)) == Some(kvs),
{
    let s = badges_doc(kvs);
    if kvs.len() == 0 {
        assert(s == seq!['{', '}']);
        assert(Seq::<(Seq<char>, BadgeRec)>::empty() =~= kvs);
    } else {
        lemma_badges_body_len(kvs);
        assert(s.len() == badges_body(kvs).len() + 4);
        assert(s != seq!['{', '}']) by {
            if s == seq!['{', '}'] {
                assert(s.len() == 2);
            }
        }
        assert(has_at(s, 0, seq!['{', '\n'])) by {
            assert(s.subrange(0, 2) =~= seq!['{', '\n']);
        }
        assert(s.subrange(2, s.len() as int) =~= badges_body(kvs) + seq!['\n', '}']);
        lemma_parse_badge_entries_of(s, 2, kvs, s.len() as nat);
    }
}

/// The badge document for these badges.
#[verifier::rlimit(80)]
pub fn badges_snapshot_text(badges: &Vec<Badge>) -> (r: String)
    ensures
        r@ == badges_doc(badge_kvs(badges@)),
{
    let ghost kvs = badge_kvs(badges@);
    let n = badges.len();
    if n == 0 {
        let mut out = String::new();
        out.append("{}");
        proof {
            reveal_strlit("{}");
            assert(out@ =~= badges_doc(kvs));
        }
        return out;
    }
    let mut out = String::new();
    out.append("{\n");
    let mut i: usize = 0;
    proof {
        reveal_strlit("{\n");
    }
    while i < n
        invariant
            n == badges@.len(),
            n == badge_kvs(badges@).len(),
            0 < n,
            i <= n,
            i == 0 ==> out@ == "{\n"@,
            i > 0 ==> out@ == "{\n"@ + badges_body(badge_kvs(badges@).take(i as int)),
        decreases n - i,
    {
        if i > 0 {
            out.append(",\n");
        }
        out.append("  \"");
        push_esc(&mut out, badges[i].name.as_str());
        out.append("\": {\n    \"name\": \"");
        push_esc(&mut out, badges[i].name.as_str());
        out.append("\",\n    \"count\": ");
        push_u64(&mut out, badges[i].count);
        out.append(",\n    \"created_at\": ");
        push_u64(&mut out, badges[i].created_at);
        out.append(",\n    \"last_accessed\": ");
        push_u64(&mut out, badges[i].last_accessed);
        out.append("\n  }");
        proof {
            reveal_strlit("{\n");
            reveal_strlit(",\n");
            reveal_strlit("  \"");
            reveal_strlit("\": {\n    \"name\": \"");
            reveal_strlit("\",\n    \"count\": ");
            reveal_strlit(",\n    \"created_at\": ");
            reveal_strlit(",\n    \"last_accessed\": ");
            reveal_strlit("\n  }");
            let kvs = badge_kvs(badges@);
            let rec = badges@[i as int]@;
            assert(kvs[i as int] == (badges@[i as int].name@, rec));
            assert(badge_entry(rec) =~= "  \""@ + esc(rec.name) + "\": {\n    \"name\": \""@
                + esc(rec.name) + "\",\n    \"count\": "@ + dec_digits(rec.count as nat)
                + ",\n    \"created_at\": "@ + dec_digits(rec.created_at as nat)
                + ",\n    \"last_accessed\": "@ + dec_digits(rec.last_accessed as nat)
                + "\n  }"@);
            if i == 0 {
                assert(kvs.take(1).len() == 1);
                assert(badges_body(kvs.take(1)) == badge_entry(kvs.take(1)[0].1));
                assert(kvs.take(1)[0] == kvs[0]);
                assert(out@ =~= "{\n"@ + badges_body(kvs.take(1)));
            } else {
                assert(kvs.take(i + 1 as int).drop_last() =~= kvs.take(i as int));
                assert(kvs.take(i + 1 as int).last() == kvs[i as int]);
                assert(badges_body(kvs.take(i + 1 as int)) =~= badges_body(kvs.take(i as int))
                    + seq![',', '\n'] + badge_entry(kvs[i as int].1));
                assert(out@ =~= "{\n"@ + badges_body(kvs.take(i + 1 as int)));
            }
        }
        i += 1;
    }
    out.append("\n}");
    proof {
        reveal_strlit("{\n");
        reveal_strlit("\n}");
        assert(badge_kvs(badges@).take(n as int) =~= badge_kvs(badges@));
        assert(out@ =~= badges_doc(badge_kvs(badges@)));
    }
    out
}


/// Whether `c` is an ASCII digit.
fn is_digit(c: char) -> (r: bool)
    ensures
        r == is_digit_char(c),
{
    c == '0' || c == '1' || c == '2' || c == '3' || c == '4' || c == '5' || c == '6' || c == '7'
        || c == '8' || c == '9'
}

/// Numeric value of a digit character.
fn digit_val(c: char) -> (r: u64)
    requires
        is_digit_char(c),
    ensures
        r == digit_value(c),
{
    if c == '1' {
        1
    } else if c == '2' {
        2
    } else if c == '3' {
        3
    } else if c == '4' {
        4
    } else if c == '5' {
        5
    } else if c == '6' {
        6
    } else if c == '7' {
        7
    } else if c == '8' {
        8
    } else if c == '9' {
        9
    } else {
        0
    }
}

/// Whether the literal stands in `s` at position `i`.
fn has_at_exec(s: &str, i: usize, lit: &str) -> (r: bool)
    ensures
        r == has_at(s@, i as int, lit@),
{
    let n = s.unicode_len();
    let m = lit.unicode_len();
    if m > n || i > n - m {
        proof {
            if has_at(s@, i as int, lit@) {
                assert(i + m <= n);
            }
        }
        return false;
    }
    let mut k: usize = 0;
    while k < m
        invariant
            n == s@.len(),
            m == lit@.len(),
            i + m <= n,
            k <= m,
            forall|q: int| 0 <= q < k ==> s@[i + q] == lit@[q],
        decreases m - k,
    {
        if s.get_char(i + k) != lit.get_char(k) {
            proof {
                assert(s@[i + k] != lit@[k as int]);
                if has_at(s@, i as int, lit@) {
                    assert(s@.subrange(i as int, i + m)[k as int] == lit@[k as int]);
                }
            }
            return false;
        }
        k += 1;
    }
    proof {
        assert(s@.subrange(i as int, i + m) =~= lit@);
    }
    true
}

/// Reads a quoted name, as `parse_qstr` describes.
fn parse_qstr_exec(s: &str, i: usize) -> (r: Option<(String, usize)>)
    requires
        i <= s@.len(),
    ensures
        match r {
            Some(p) => parse_qstr(s@, i as int) == Some((p.0@, p.1 as int)) && i < p.1 <= s@.len(),
            None => parse_qstr(s@, i as int) is None,
        },
{
    let n = s.unicode_len();
    let mut pos: usize = i;
    let mut acc = String::new();
    while pos < n
        invariant
            n == s@.len(),
            i <= pos <= n,
            parse_qstr(s@, i as int) == (match parse_qstr(s@, pos as int) {
                Option::None => Option::<(Seq<char>, int)>::None,
                Option::Some((t, j)) => Some((acc@ + t, j)),
            }),
        decreases n - pos,
    {
        let c = s.get_char(pos);
        if c == '"' {
            proof {
                assert(parse_qstr(s@, pos as int) == Some((Seq::<char>::empty(), pos + 1 as int)));
                assert(acc@ + Seq::<char>::empty() =~= acc@);
            }
            return Some((acc, pos + 1));
        } else if c == '\\' {
            if pos + 1 < n {
                let d = s.get_char(pos + 1);
                if d == '"' || d == '\\' {
                    let ghost old_acc = acc@;
                    push_char(&mut acc, d);
                    proof {
                        if parse_qstr(s@, pos + 2 as int) is Some {
                            let (t, j) = parse_qstr(s@, pos + 2 as int).unwrap();
                            assert(old_acc + (seq![s@[pos + 1 as int]] + t) =~= acc@ + t);
                        }
                    }
                    pos += 2;
                } else {
                    return None;
                }
            } else {
                return None;
            }
        } else {
            let ghost old_acc = acc@;
            push_char(&mut acc, c);
            proof {
                if parse_qstr(s@, pos + 1 as int) is Some {
                    let (t, j) = parse_qstr(s@, pos + 1 as int).unwrap();
                    assert(old_acc + (seq![s@[pos as int]] + t) =~= acc@ + t);
                }
            }
            pos += 1;
        }
    }
    None
}

/// For digit sequences, the value of a prefix never exceeds the value of
/// the whole.
proof fn lemma_seq_value_prefix(ds: Seq<char>, m: int)
    requires
        0 <= m <= ds.len(),
    ensures
        seq_value(ds.take(m)) <= seq_value(ds),
    decreases ds.len(),
{
    if m < ds.len() {
        assert(ds.drop_last().take(m) =~= ds.take(m));
        lemma_seq_value_prefix(ds.drop_last(), m);
        assert(seq_value(ds) == seq_value(ds.drop_last()) * 10 + digit_value(ds.last()));
        assert(seq_value(ds.drop_last()) * 10 >= seq_value(ds.drop_last())) by (nonlinear_arith);
    } else {
        assert(ds.take(m) =~= ds);
    }
}

/// Reads a decimal number, as `parse_num` describes.
fn parse_num_exec(s: &str, i: usize) -> (r: Option<(u64, usize)>)
    requires
        i <= s@.len(),
    ensures
        match r {
            Some(p) => parse_num(s@, i as int) == Some((p.0, p.1 as int)) && i < p.1 <= s@.len(),
            None => parse_num(s@, i as int) is None,
        },
{
    let n = s.unicode_len();
    let mut e: usize = i;
    while e < n && is_digit(s.get_char(e))
        invariant
            n == s@.len(),
            i <= e <= n,
            digit_run_end(s@, i as int) == digit_run_end(s@, e as int),
            forall|q: int| i <= q < e ==> is_digit_char(#[trigger] s@[q]),
        decreases n - e,
    {
        e += 1;
    }
    proof {
        assert(digit_run_end(s@, e as int) == e);
    }
    if e == i {
        return None;
    }
    if s.get_char(i) == '0' && e != i + 1 {
        return None;
    }
    let ghost ds = s@.subrange(i as int, e as int);
    let mut acc: u64 = 0;
    let mut pos: usize = i;
    proof {
        assert(ds.take(0) =~= Seq::<char>::empty());
    }
    while pos < e
        invariant
            n == s@.len(),
            i <= pos <= e <= n,
            ds == s@.subrange(i as int, e as int),
            digit_run_end(s@, i as int) == e as int,
            !(s@[i as int] == '0' && e != i + 1),
            forall|q: int| i <= q < e ==> is_digit_char(#[trigger] s@[q]),
            acc == seq_value(ds.take(pos - i)),
        decreases e - pos,
    {
        let c = s.get_char(pos);
        let d = digit_val(c);
        let ghost m = pos - i;
        proof {
            assert(ds.take(m + 1).drop_last() =~= ds.take(m));
            assert(ds.take(m + 1).last() == s@[pos as int]);
            assert(seq_value(ds.take(m + 1)) == seq_value(ds.take(m)) * 10 + digit_value(
                s@[pos as int],
            ));
        }
        let step = match acc.checked_mul(10) {
            Some(x) => x.checked_add(d),
            None => None,
        };
        match step {
            Some(x) => {
                acc = x;
            },
            None => {
                proof {
                    assert(seq_value(ds.take(m + 1)) > u64::MAX);
                    lemma_seq_value_prefix(ds, m + 1);
                    assert(ds.take(ds.len() as int) =~= ds);
                    assert(seq_value(ds) > u64::MAX);
                    assert(digit_run_end(s@, i as int) == e as int);
                    assert(seq_value(s@.subrange(i as int, digit_run_end(s@, i as int))) > u64::MAX);
                    assert(parse_num(s@, i as int) is None);
                }
                return None;
            },
        }
        pos += 1;
    }
    proof {
        assert(ds.take(e - i) =~= ds);
        assert(acc == seq_value(ds));
    }
    Some((acc, e))
}


/// Reads the counter lines, as `parse_counter_entries` describes.
fn parse_counter_entries_exec(s: &str, i: usize, fuel: usize) -> (r: Option<
    (Vec<CounterEntry>, usize),
>)
    ensures
        match r {
            Some(p) => parse_counter_entries(s@, i as int, fuel as nat) == Some(
                (counter_kvs(p.0@), p.1 as int),
            ) && p.1 <= s@.len(),
            None => parse_counter_entries(s@, i as int, fuel as nat) is None,
        },
    decreases fuel,
{
    proof {
        reveal_strlit("  \"");
        reveal_strlit(": ");
        reveal_strlit(",\n");
        reveal_strlit("\n}");
        assert("  \""@ =~= seq![' ', ' ', '"']);
        assert(": "@ =~= seq![':', ' ']);
        assert(",\n"@ =~= seq![',', '\n']);
        assert("\n}"@ =~= seq!['\n', '}']);
    }
    let n = s.unicode_len();
    if fuel == 0 {
        return None;
    }
    if !has_at_exec(s, i, "  \"") {
        return None;
    }
    let (name, j) = match parse_qstr_exec(s, i + 3) {
        Some(p) => p,
        None => {
            return None;
        },
    };
    if !has_at_exec(s, j, ": ") {
        return None;
    }
    let (v, p) = match parse_num_exec(s, j + 2) {
        Some(p) => p,
        None => {
            return None;
        },
    };
    if has_at_exec(s, p, ",\n") {
        let (mut rest, e) = match parse_counter_entries_exec(s, p + 2, fuel - 1) {
            Some(q) => q,
            None => {
                return None;
            },
        };
        let ghost rest_kvs = counter_kvs(rest@);
        rest.insert(0, CounterEntry { name, count: v });
        proof {
            assert(counter_kvs(rest@) =~= seq![(rest@[0].name@, v)] + rest_kvs);
        }
        Some((rest, e))
    } else if has_at_exec(s, p, "\n}") && p + 2 == n {
        let mut one: Vec<CounterEntry> = Vec::new();
        one.push(CounterEntry { name, count: v });
        proof {
            assert(counter_kvs(one@) =~= seq![(one@[0].name@, v)]);
        }
        Some((one, p))
    } else {
        None
    }
}

/// Reads a whole counter document, as `parse_counters_doc` describes.
pub fn parse_counters_text(s: &str) -> (r: Option<Vec<CounterEntry>>)
    ensures
        match r {
            Some(v) => parse_counters_doc(s@) == Some(counter_kvs(v@)),
            None => parse_counters_doc(s@) is None,
        },
{
    proof {
        reveal_strlit("{}");
        reveal_strlit("{\n");
        assert("{}"@ =~= seq!['{', '}']);
        assert("{\n"@ =~= seq!['{', '\n']);
    }
    if crate::strtext::str_eq(s, "{}") {
        let empty: Vec<CounterEntry> = Vec::new();
        proof {
            assert(counter_kvs(empty@) =~= Seq::<(Seq<char>, u64)>::empty());
        }
        return Some(empty);
    }
    if !has_at_exec(s, 0, "{\n") {
        return None;
    }
    let n = s.unicode_len();
    match parse_counter_entries_exec(s, 2, n) {
        Some((v, _p)) => Some(v),
        None => None,
    }
}

/// Reads one badge entry, as `parse_badge_entry` describes.
fn parse_badge_entry_exec(s: &str, i: usize) -> (r: Option<(Badge, usize)>)
    ensures
        match r {
            Some(p) => parse_badge_entry(s@, i as int) == Some(((p.0.name@, p.0@), p.1 as int))
                && p.1 <= s@.len(),
            None => parse_badge_entry(s@, i as int) is None,
        },
{
    proof {
        reveal_strlit("  \"");
        reveal_strlit(": {\n    \"name\": \"");
        reveal_strlit(",\n    \"count\": ");
        reveal_strlit(",\n    \"created_at\": ");
        reveal_strlit(",\n    \"last_accessed\": ");
        reveal_strlit("\n  }");
        assert("  \""@ =~= lit_key_open());
        assert(": {\n    \"name\": \""@ =~= lit_name_label());
        assert(",\n    \"count\": "@ =~= lit_count_label());
        assert(",\n    \"created_at\": "@ =~= lit_created_label());
        assert(",\n    \"last_accessed\": "@ =~= lit_last_label());
        assert("\n  }"@ =~= lit_badge_close());
    }
    let n = s.unicode_len();
    if !has_at_exec(s, i, "  \"") {
        return None;
    }
    let (key, j) = match parse_qstr_exec(s, i + 3) {
        Some(p) => p,
        None => {
            return None;
        },
    };
    if !has_at_exec(s, j, ": {\n    \"name\": \"") {
        return None;
    }
    let (nm, j2) = match parse_qstr_exec(s, j + 17) {
        Some(p) => p,
        None => {
            return None;
        },
    };
    if !crate::strtext::str_eq(nm.as_str(), key.as_str()) {
        return None;
    }
    if !has_at_exec(s, j2, ",\n    \"count\": ") {
        return None;
    }
    let (count, p1) = match parse_num_exec(s, j2 + 15) {
        Some(p) => p,
        None => {
            return None;
        },
    };
    if !has_at_exec(s, p1, ",\n    \"created_at\": ") {
        return None;
    }
    let (created, p2) = match parse_num_exec(s, p1 + 20) {
        Some(p) => p,
        None => {
            return None;
        },
    };
    if !has_at_exec(s, p2, ",\n    \"last_accessed\": ") {
        return None;
    }
    let (last, p3) = match parse_num_exec(s, p2 + 23) {
        Some(p) => p,
        None => {
            return None;
        },
    };
    if !has_at_exec(s, p3, "\n  }") {
        return None;
    }
    let b = Badge { name: key, count, created_at: created, last_accessed: last };
    Some((b, p3 + 4))
}

/// Reads the badge entries, as `parse_badge_entries` describes.
fn parse_badge_entries_exec(s: &str, i: usize, fuel: usize) -> (r: Option<(Vec<Badge>, usize)>)
    ensures
        match r {
            Some(p) => parse_badge_entries(s@, i as int, fuel as nat) == Some(
                (badge_kvs(p.0@), p.1 as int),
            ) && p.1 <= s@.len(),
            None => parse_badge_entries(s@, i as int, fuel as nat) is None,
        },
    decreases fuel,
{
    proof {
        reveal_strlit(",\n");
        reveal_strlit("\n}");
        assert(",\n"@ =~= seq![',', '\n']);
        assert("\n}"@ =~= seq!['\n', '}']);
    }
    let n = s.unicode_len();
    if fuel == 0 {
        return None;
    }
    let (b, p) = match parse_badge_entry_exec(s, i) {
        Some(q) => q,
        None => {
            return None;
        },
    };
    if has_at_exec(s, p, ",\n") {
        let (mut rest, e) = match parse_badge_entries_exec(s, p + 2, fuel - 1) {
            Some(q) => q,
            None => {
                return None;
            },
        };
        let ghost rest_kvs = badge_kvs(rest@);
        let ghost brec = b@;
        rest.insert(0, b);
        proof {
            assert(badge_kvs(rest@) =~= seq![(rest@[0].name@, brec)] + rest_kvs);
        }
        Some((rest, e))
    } else if has_at_exec(s, p, "\n}") && p + 2 == n {
        let ghost brec = b@;
        let mut one: Vec<Badge> = Vec::new();
        one.push(b);
        proof {
            assert(badge_kvs(one@) =~= seq![(one@[0].name@, brec)]);
        }
        Some((one, p))
    } else {
        None
    }
}

/// Reads a whole badge document, as `parse_badges_doc` describes.
pub fn parse_badges_text(s: &str) -> (r: Option<Vec<Badge>>)
    ensures
        match r {
            Some(v) => parse_badges_doc(s@) == Some(badge_kvs(v@)),
            None => parse_badges_doc(s@) is None,
        },
{
    proof {
        reveal_strlit("{}");
        reveal_strlit("{\n");
        assert("{}"@ =~= seq!['{', '}']);
        assert("{\n"@ =~= seq!['{', '\n']);
    }
    if crate::strtext::str_eq(s, "{}") {
        let empty: Vec<Badge> = Vec::new();
        proof {
            assert(badge_kvs(empty@) =~= Seq::<(Seq<char>, BadgeRec)>::empty());
        }
        return Some(empty);
    }
    if !has_at_exec(s, 0, "{\n") {
        return None;
    }
    let n = s.unicode_len();
    match parse_badge_entries_exec(s, 2, n) {
        Some((v, _p)) => Some(v),
        None => None,
    }
}


/// The view of an optional borrowed text.
pub open spec fn text_view(t: Option<&str>) -> Option<Seq<char>> {
    match t {
        Option::Some(x) => Some(x@),
        Option::None => None,
    }
}

/// The counter map a load of this text yields: the parsed entries, or the
/// empty map where there is no file or the text is not canonical.
pub open spec fn loaded_counters(t: Option<Seq<char>>) -> Map<Seq<char>, u64> {
    match t {
        Option::None => Map::empty(),
        Option::Some(s) => match parse_counters_doc(s) {
            Option::None => Map::empty(),
            Option::Some(kvs) => crate::assoc::assoc_map(kvs),
        },
    }
}

/// The badge map a load of this text yields, with the same fallback.
pub open spec fn loaded_badges(t: Option<Seq<char>>) -> Map<Seq<char>, BadgeRec> {
    match t {
        Option::None => Map::empty(),
        Option::Some(s) => match parse_badges_doc(s) {
            Option::None => Map::empty(),
            Option::Some(kvs) => crate::assoc::assoc_map(kvs),
        },
    }
}


/// The marker replaced in the counter file's path.
pub open spec fn json_marker() -> Seq<char> {
    seq!['.', 'j', 's', 'o', 'n']
}

/// What the marker becomes in the badge file's path.
pub open spec fn badges_marker() -> Seq<char> {
    seq!['_', 'b', 'a', 'd', 'g', 'e', 's', '.', 'j', 's', 'o', 'n']
}

/// The badge file's path for a counter file's path: every occurrence of
/// the marker, leftmost first, replaced.
pub open spec fn spec_badges_path(s: Seq<char>) -> Seq<char>
    decreases s.len(),
{
    if s.len() < 5 {
        s
    } else if s.subrange(0, 5) == json_marker() {
        badges_marker() + spec_badges_path(s.skip(5))
    } else {
        seq![s[0]] + spec_badges_path(s.skip(1))
    }
}

/// The sibling path the badge snapshot is kept under.
pub fn badges_path_for(path: &str) -> (r: String)
    ensures
        r@ == spec_badges_path(path@),
{
    proof {
        reveal_strlit(".json");
        reveal_strlit("_badges.json");
        assert(".json"@ =~= json_marker());
        assert("_badges.json"@ =~= badges_marker());
    }
    let n = path.unicode_len();
    let mut out = String::new();
    let mut i: usize = 0;
    proof {
        assert(path@.skip(0) =~= path@);
    }
    while i < n
        invariant
            n == path@.len(),
            i <= n,
            out@ + spec_badges_path(path@.skip(i as int)) == spec_badges_path(path@),
        decreases n - i,
    {
        let rest_len = n - i;
        let ghost pre = out@;
        let ghost rest = path@.skip(i as int);
        let mut matched = false;
        proof {
            reveal_strlit(".json");
            reveal_strlit("_badges.json");
            assert(".json"@ =~= json_marker());
            assert("_badges.json"@ =~= badges_marker());
        }
        if rest_len >= 5 {
            matched = has_at_exec(path, i, ".json");
            proof {
                assert(path@.subrange(i as int, i + 5) =~= rest.subrange(0, 5));
            }
        }
        if matched {
            out.append("_badges.json");
            proof {
                assert(rest.subrange(0, 5) == json_marker());
                assert(spec_badges_path(rest) == badges_marker() + spec_badges_path(rest.skip(5)));
                assert(rest.skip(5) =~= path@.skip(i + 5 as int));
                assert(out@ + spec_badges_path(path@.skip(i + 5 as int)) =~= pre
                    + spec_badges_path(rest));
            }
            i += 5;
        } else {
            let c = path.get_char(i);
            push_char(&mut out, c);
            proof {
                assert(rest[0] == c);
                if rest.len() < 5 {
                    assert(rest =~= seq![c] + rest.skip(1));
                    assert(spec_badges_path(rest) == rest);
                    assert(spec_badges_path(rest.skip(1)) == rest.skip(1)) by {
                        assert(rest.skip(1).len() < 5);
                    }
                    assert(spec_badges_path(rest) =~= seq![c] + spec_badges_path(rest.skip(1)));
                } else {
                    assert(rest.subrange(0, 5) != json_marker());
                    assert(spec_badges_path(rest) == seq![rest[0]] + spec_badges_path(
                        rest.skip(1),
                    ));
                }
                assert(rest.skip(1) =~= path@.skip(i + 1 as int));
                assert(out@ + spec_badges_path(path@.skip(i + 1 as int)) =~= pre
                    + spec_badges_path(rest));
            }
            i += 1;
        }
    }
    proof {
        assert(path@.skip(n as int) =~= Seq::<char>::empty());
        assert(spec_badges_path(Seq::<char>::empty()) =~= Seq::<char>::empty());
        assert(out@ =~= out@ + spec_badges_path(path@.skip(n as int)));
    }
    out
}

} // verus!
