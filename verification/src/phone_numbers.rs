//! A consistency check for phone-number lists: a list is consistent when no
//! number is a prefix of another. Lines of free-form text are reduced to
//! their digits, sorted, and scanned for an entry that begins a later entry.

use vstd::prelude::*;

use vstd::relations::sorted_by;
use vstd::slice::slice_subrange;

use itertools::Itertools;

use crate::text::push_char;

verus! {

pub open spec fn is_digit_char(c: char) -> bool {
    '0' <= c && c <= '9'
}

pub open spec fn digit_pred() -> spec_fn(char) -> bool {
    |c: char| is_digit_char(c)
}

/// The decimal digits of a line, in their original order.
pub open spec fn spec_parse_line(l: Seq<char>) -> Seq<char> {
    l.filter(digit_pred())
}

/// Keeps only the decimal-digit characters of a line, preserving their order.
pub fn parse_line(line: &str) -> (r: String)
    ensures
        r@ == spec_parse_line(line@),
{
    let ghost s: Seq<char> = line@;
    let len = line.unicode_len();
    let mut out = String::new();
    let mut i: usize = 0;
    proof {
        assert(s.take(0).filter(digit_pred()) =~= Seq::<char>::empty());
    }
    while i < len
        invariant
            s == line@,
            len == s.len(),
            0 <= i <= len,
            out@ == s.take(i as int).filter(digit_pred()),
        decreases len - i,
    {
        let c = line.get_char(i);
        proof {
            reveal_with_fuel(Seq::filter, 2);
            assert(s.take(i + 1).drop_last() =~= s.take(i as int));
            assert(s.take(i + 1).last() == s[i as int]);
            assert(s.take(i + 1).len() == i + 1);
            assert(s.take(i + 1).filter(digit_pred()) == (if is_digit_char(s[i as int]) {
                s.take(i as int).filter(digit_pred()).push(s[i as int])
            } else {
                s.take(i as int).filter(digit_pred())
            }));
        }
        if '0' <= c && c <= '9' {
            push_char(&mut out, c);
        }
        i = i + 1;
    }
    proof {
        assert(s.take(len as int) =~= s);
    }
    out
}

/// The lines of the text from position `i` on: the stretches of characters
/// between `'\n'` separators. Text with no separator is one line; a trailing
/// separator yields a final empty line.
pub open spec fn lines_from(s: Seq<char>, i: int) -> Seq<Seq<char>>
    decreases s.len() - i,
{
    if i < 0 || i >= s.len() {
        seq![Seq::<char>::empty()]
    } else if s[i] == '\n' {
        seq![Seq::<char>::empty()] + lines_from(s, i + 1)
    } else {
        let rest = lines_from(s, i + 1);
        seq![seq![s[i]] + rest[0]] + rest.drop_first()
    }
}

pub open spec fn spec_lines(s: Seq<char>) -> Seq<Seq<char>> {
    lines_from(s, 0)
}

proof fn lemma_lines_from_len(s: Seq<char>, i: int)
    ensures
        lines_from(s, i).len() >= 1,
    decreases s.len() - i,
{
    if i < 0 || i >= s.len() {
    } else {
        lemma_lines_from_len(s, i + 1);
    }
}

/// Splits the text at `'\n'` separators.
fn split_lines(input: &str) -> (r: Vec<String>)
    ensures
        r.deep_view() == spec_lines(input@),
{
    let ghost s: Seq<char> = input@;
    let len = input.unicode_len();
    let mut done: Vec<String> = Vec::new();
    let mut cur = String::new();
    let mut i: usize = 0;
    proof {
        lemma_lines_from_len(s, 0);
        assert(done.deep_view() =~= Seq::<Seq<char>>::empty());
        assert(cur@ + lines_from(s, 0)[0] =~= lines_from(s, 0)[0]);
        assert(spec_lines(s) =~= done.deep_view() + seq![cur@ + lines_from(s, 0)[0]]
            + lines_from(s, 0).drop_first());
    }
    while i < len
        invariant
            s == input@,
            len == s.len(),
            0 <= i <= len,
            spec_lines(s) == done.deep_view() + seq![cur@ + lines_from(s, i as int)[0]]
                + lines_from(s, i as int).drop_first(),
        decreases len - i,
    {
        let ghost prev_done = done.deep_view();
        let ghost prev_cur: Seq<char> = cur@;
        let c = input.get_char(i);
        if c == '\n' {
            done.push(cur);
            cur = String::new();
            proof {
                lemma_lines_from_len(s, i + 1);
                assert(done.deep_view() =~= prev_done.push(prev_cur));
                assert(lines_from(s, i as int) == seq![Seq::<char>::empty()] + lines_from(
                    s,
                    i + 1,
                ));
                assert(prev_cur + lines_from(s, i as int)[0] =~= prev_cur);
                assert(cur@ + lines_from(s, i + 1)[0] =~= lines_from(s, i + 1)[0]);
                assert(lines_from(s, i as int).drop_first() =~= lines_from(s, i + 1));
                assert(lines_from(s, i + 1) =~= seq![lines_from(s, i + 1)[0]] + lines_from(
                    s,
                    i + 1,
                ).drop_first());
                assert(spec_lines(s) =~= done.deep_view() + seq![cur@ + lines_from(s, i + 1)[0]]
                    + lines_from(s, i + 1).drop_first());
            }
        } else {
            push_char(&mut cur, c);
            proof {
                lemma_lines_from_len(s, i + 1);
                assert(lines_from(s, i as int) == seq![seq![s[i as int]] + lines_from(s, i + 1)[0]]
                    + lines_from(s, i + 1).drop_first());
                assert(prev_cur + (seq![s[i as int]] + lines_from(s, i + 1)[0]) =~= cur@
                    + lines_from(s, i + 1)[0]);
                assert(lines_from(s, i as int).drop_first() =~= lines_from(s, i + 1).drop_first());
                assert(spec_lines(s) =~= done.deep_view() + seq![cur@ + lines_from(s, i + 1)[0]]
                    + lines_from(s, i + 1).drop_first());
            }
        }
        i = i + 1;
    }
    let ghost prev_done = done.deep_view();
    let ghost prev_cur: Seq<char> = cur@;
    done.push(cur);
    proof {
        assert(lines_from(s, len as int) == seq![Seq::<char>::empty()]);
        assert(prev_cur + lines_from(s, len as int)[0] =~= prev_cur);
        assert(done.deep_view() =~= prev_done.push(prev_cur));
        assert(done.deep_view() =~= spec_lines(s));
    }
    done
}

/// Lexicographic order on character sequences: the order in which `String`s
/// compare.
pub open spec fn lex_le(a: Seq<char>, b: Seq<char>) -> bool
    decreases a.len(),
{
    if a.len() == 0 {
        true
    } else if b.len() == 0 {
        false
    } else if a[0] != b[0] {
        a[0] < b[0]
    } else {
        lex_le(a.drop_first(), b.drop_first())
    }
}

/// Relies on itertools' `sorted`, which collects the items into a `Vec`,
/// stable-sorts it with `slice::sort` by the items' `Ord` order, and hands
/// the vector back: the result is a permutation of the input, ascending.
/// `String`s order lexicographically by character.
#[verifier::external_body]
fn sorted_strings(v: Vec<String>) -> (r: Vec<String>)
    ensures
        r.deep_view().to_multiset() == v.deep_view().to_multiset(),
        sorted_by(r.deep_view(), |a: Seq<char>, b: Seq<char>| lex_le(a, b)),
{
    v.into_iter().sorted().collect()
}

/// The entries a text produces, one per line, before sorting: just the
/// line's digits.
pub open spec fn spec_database(s: Seq<char>) -> Seq<Seq<char>> {
    spec_lines(s).map_values(|l: Seq<char>| spec_parse_line(l))
}

/// Builds the database for a text: one entry per line, holding that line's
/// digits, sorted ascending.
pub fn build_database(input: &str) -> (db: Vec<String>)
    ensures
        db.deep_view().to_multiset() == spec_database(input@).to_multiset(),
        sorted_by(db.deep_view(), |a: Seq<char>, b: Seq<char>| lex_le(a, b)),
{
    let ghost s: Seq<char> = input@;
    let lines = split_lines(input);
    let mut parsed: Vec<String> = Vec::new();
    let n = lines.len();
    let mut j: usize = 0;
    proof {
        assert(parsed.deep_view() =~= spec_database(s).take(0));
    }
    while j < n
        invariant
            s == input@,
            n == lines@.len(),
            0 <= j <= n,
            lines.deep_view() == spec_lines(s),
            parsed.deep_view() == spec_database(s).take(j as int),
        decreases n - j,
    {
        let ghost prev = parsed.deep_view();
        let line_digits = parse_line(lines[j].as_str());
        parsed.push(line_digits);
        proof {
            assert(lines.deep_view()[j as int] == lines@[j as int]@);
            assert(spec_database(s)[j as int] == spec_parse_line(spec_lines(s)[j as int]));
            assert(parsed.deep_view() =~= prev.push(spec_database(s)[j as int]));
            assert(spec_database(s).take(j + 1) =~= spec_database(s).take(j as int).push(
                spec_database(s)[j as int],
            ));
        }
        j = j + 1;
    }
    proof {
        assert(spec_database(s).take(n as int) =~= spec_database(s));
    }
    sorted_strings(parsed)
}

/// Whether `prefix` begins `text`.
fn starts_with(text: &str, prefix: &str) -> (r: bool)
    ensures
        r == prefix@.is_prefix_of(text@),
{
    let n = prefix.unicode_len();
    let m = text.unicode_len();
    if n > m {
        return false;
    }
    let mut k: usize = 0;
    while k < n
        invariant
            n == prefix@.len(),
            m == text@.len(),
            n <= m,
            0 <= k <= n,
            forall|t: int| 0 <= t < k ==> text@[t] == prefix@[t],
        decreases n - k,
    {
        if text.get_char(k) != prefix.get_char(k) {
            proof {
                assert(text@.subrange(0, n as int)[k as int] != prefix@[k as int]);
            }
            return false;
        }
        k = k + 1;
    }
    proof {
        assert(prefix@ =~= text@.subrange(0, n as int));
    }
    true
}

/// Whether the number begins some entry of the database.
pub fn is_number_contained_by_element_of_database(number: &str, database: &[String]) -> (r: bool)
    ensures
        r == exists|k: int|
            0 <= k < database@.len() && number@.is_prefix_of(#[trigger] database@[k]@),
{
    let n = database.len();
    let mut k: usize = 0;
    while k < n
        invariant
            n == database@.len(),
            0 <= k <= n,
            forall|t: int| 0 <= t < k ==> !number@.is_prefix_of(#[trigger] database@[t]@),
        decreases n - k,
    {
        if starts_with(database[k].as_str(), number) {
            return true;
        }
        k = k + 1;
    }
    false
}

/// A database is consistent exactly when no entry begins a later entry. On a
/// sorted database that is the same as no number being a prefix of another.
pub fn is_consistent(string_vector: &Vec<String>) -> (r: bool)
    ensures
        r == forall|i: int, j: int|
            #![trigger string_vector@[i], string_vector@[j]]
            0 <= i < j < string_vector@.len() ==> !string_vector@[i]@.is_prefix_of(
                string_vector@[j]@,
            ),
{
    let n = string_vector.len();
    let mut db_index: usize = 0;
    while db_index < n
        invariant
            n == string_vector@.len(),
            0 <= db_index <= n,
            forall|i: int, j: int|
                #![trigger string_vector@[i], string_vector@[j]]
                0 <= i < j < n && i < db_index ==> !string_vector@[i]@.is_prefix_of(
                    string_vector@[j]@,
                ),
        decreases n - db_index,
    {
        let number = &string_vector[db_index];
        let sub_vector = slice_subrange(string_vector.as_slice(), db_index + 1, n);
        if is_number_contained_by_element_of_database(number.as_str(), sub_vector) {
            proof {
                let k = choose|k: int|
                    0 <= k < sub_vector@.len() && number@.is_prefix_of(#[trigger] sub_vector@[k]@);
                assert(sub_vector@[k] == string_vector@[db_index + 1 + k]);
            }
            return false;
        }
        proof {
            assert forall|j: int|
                #![trigger string_vector@[j]]
                db_index < j < n implies !string_vector@[db_index as int]@.is_prefix_of(
                string_vector@[j]@,
            ) by {
                assert(sub_vector@[j - db_index - 1] == string_vector@[j]);
            }
        }
        db_index = db_index + 1;
    }
    true
}

} // verus!
