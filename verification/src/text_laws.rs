//! What the operations on text amount to, character by character.

use vstd::prelude::*;

use crate::numbers::{
    all_digits, clamp_i64, decimal, is_digit, law_decimal_reads_back, port_of, signed_decimal,
    value_of,
};
use crate::order::{ascending, lt};
use crate::pattern::{fits, list_admits};
use crate::text::{
    has_suffix, is_space, joined, lemma_split_on_adds, lemma_split_on_single,
    lemma_words_hold_no_space, lower, lowered, split_on, string_view, texts, trim, trim_end,
    trim_start, words,
};

verus! {

/// Whether every character of `s` is white space.
pub open spec fn all_space(s: Seq<char>) -> bool {
    forall|i: int| 0 <= i < s.len() ==> is_space(#[trigger] s[i])
}

/// White space is the space and the tab, what ends a line or a page, and the spaces and
/// separators of other scripts; in particular no letter, digit or sign of ASCII is.
pub proof fn law_white_space(c: char)
    ensures
        is_space(c) <==> (c as u32 == 9 || c as u32 == 10 || c as u32 == 11 || c as u32 == 12
            || c as u32 == 13 || c as u32 == 32 || c as u32 == 133 || c as u32 == 160 || c as u32
            == 5760 || 8192 <= c as u32 <= 8202 || c as u32 == 8232 || c as u32 == 8233 || c as u32
            == 8239 || c as u32 == 8287 || c as u32 == 12288),
        33 <= c as u32 <= 126 ==> !is_space(c),
{
}

proof fn lemma_trim_start_splits(s: Seq<char>) -> (lead: Seq<char>)
    ensures
        s == lead + trim_start(s),
        all_space(lead),
        trim_start(s).len() > 0 ==> !is_space(trim_start(s)[0]),
    decreases s.len(),
{
    if s.len() > 0 && is_space(s[0]) {
        let rest = lemma_trim_start_splits(s.drop_first());
        let lead = seq![s[0]] + rest;
        assert(s =~= seq![s[0]] + s.drop_first());
        assert(s =~= lead + trim_start(s));
        assert forall|i: int| 0 <= i < lead.len() implies is_space(#[trigger] lead[i]) by {
            if i > 0 {
                assert(lead[i] == rest[i - 1]);
            }
        }
        lead
    } else {
        assert(s =~= Seq::<char>::empty() + s);
        Seq::empty()
    }
}

proof fn lemma_trim_end_splits(s: Seq<char>) -> (tail: Seq<char>)
    ensures
        s == trim_end(s) + tail,
        all_space(tail),
        trim_end(s).len() > 0 ==> !is_space(trim_end(s).last()),
    decreases s.len(),
{
    if s.len() > 0 && is_space(s.last()) {
        let rest = lemma_trim_end_splits(s.drop_last());
        let tail = rest.push(s.last());
        assert(s =~= s.drop_last().push(s.last()));
        assert(s =~= trim_end(s) + tail);
        tail
    } else {
        assert(s =~= s + Seq::<char>::empty());
        Seq::empty()
    }
}

/// Trimming takes away white space at the two ends, all of it, and nothing else.
pub proof fn law_trim_takes_outer_white_space(s: Seq<char>) -> (r: (Seq<char>, Seq<char>))
    ensures
        s == r.0 + trim(s) + r.1,
        all_space(r.0),
        all_space(r.1),
        trim(s).len() > 0 ==> !is_space(trim(s)[0]) && !is_space(trim(s)[trim(s).len() - 1]),
{
    let lead = lemma_trim_start_splits(s);
    let t = trim_start(s);
    let tail = lemma_trim_end_splits(t);
    assert(s =~= lead + trim(s) + tail);
    if trim(s).len() > 0 {
        assert(t[0] == trim(s)[0]);
    }
    (lead, tail)
}

/// Splitting cuts at every separator and nowhere else: a text without separators is one
/// piece, and a separator and a piece add that piece.
pub proof fn law_split_cuts_at_separators(front: Seq<char>, piece: Seq<char>, sep: char)
    requires
        forall|i: int| 0 <= i < piece.len() ==> #[trigger] piece[i] != sep,
    ensures
        split_on(piece, sep) == seq![piece],
        split_on(front + seq![sep] + piece, sep) == split_on(front, sep).push(piece),
{
    assert(!piece.contains(sep));
    lemma_split_on_single(piece, sep);
    lemma_split_on_adds(front, piece, sep);
    assert(front + seq![sep] + piece =~= front.push(sep) + piece);
}

/// White space separates words: the words of two parts with white space between them are
/// those of the one and then those of the other.
pub proof fn law_words_of_parts(a: Seq<char>, c: char, b: Seq<char>)
    requires
        is_space(c),
    ensures
        words(a + seq![c] + b) == words(a) + words(b),
    decreases b.len(),
{
    let whole = a + seq![c] + b;
    if b.len() == 0 {
        assert(whole =~= a.push(c));
        assert(whole.drop_last() =~= a);
        assert(whole.last() == c);
        assert(words(b) =~= Seq::<Seq<char>>::empty());
        assert(words(a) + words(b) =~= words(a));
    } else {
        let less = b.drop_last();
        law_words_of_parts(a, c, less);
        assert(whole.drop_last() =~= a + seq![c] + less);
        assert(whole.last() == b.last());
        if !is_space(b.last()) {
            if b.len() >= 2 {
                assert(whole[whole.len() - 2] == b[b.len() - 2]);
                if !is_space(b[b.len() - 2]) {
                    lemma_words_hold_no_space(less);
                    assert(less.last() == b[b.len() - 2]);
                    let front = words(a);
                    let back = words(less);
                    assert((front + back).update(
                        front.len() + back.len() - 1,
                        (front + back).last().push(b.last()),
                    ) =~= front + back.update(back.len() - 1, back.last().push(b.last())));
                } else {
                    assert((words(a) + words(less)).push(seq![b.last()]) =~= words(a) + words(
                        less,
                    ).push(seq![b.last()]));
                }
            } else {
                assert(whole[whole.len() - 2] == c);
                assert(less =~= Seq::<char>::empty());
                assert((words(a) + words(less)).push(seq![b.last()]) =~= words(a) + words(
                    less,
                ).push(seq![b.last()]));
            }
        }
    }
}

/// A text without white space is its only word, and one of white space alone has none.
pub proof fn law_text_without_white_space_is_one_word(w: Seq<char>)
    ensures
        w.len() > 0 && (forall|i: int| 0 <= i < w.len() ==> !is_space(#[trigger] w[i])) ==> words(w)
            == seq![w],
        all_space(w) ==> words(w) == Seq::<Seq<char>>::empty(),
    decreases w.len(),
{
    if w.len() > 0 {
        let less = w.drop_last();
        law_text_without_white_space_is_one_word(less);
        assert(w[w.len() - 1] == w.last());
        if forall|i: int| 0 <= i < w.len() ==> !is_space(#[trigger] w[i]) {
            assert forall|i: int| 0 <= i < less.len() implies !is_space(#[trigger] less[i]) by {
                assert(less[i] == w[i]);
            }
            assert(less.push(w.last()) =~= w);
            if w.len() == 1 {
                assert(words(less) =~= Seq::<Seq<char>>::empty());
                assert(seq![w.last()] =~= w);
            } else {
                assert(!is_space(w[w.len() - 2]));
            }
            assert(words(w) =~= seq![w]);
        }
        if all_space(w) {
            assert forall|i: int| 0 <= i < less.len() implies is_space(#[trigger] less[i]) by {
                assert(less[i] == w[i]);
            }
        }
    }
}

/// Folding touches the letters `A` to `Z` only: these become `a` to `z`, and every other
/// character stays.
pub proof fn law_lower_is_ascii(s: Seq<char>, i: int)
    requires
        0 <= i < s.len(),
    ensures
        lowered(s).len() == s.len(),
        lowered(s)[i] == lower(s[i]),
        65 <= s[i] as int <= 90 ==> lower(s[i]) as int == s[i] as int + 32,
        !(65 <= s[i] as int <= 90) ==> lower(s[i]) == s[i],
{
}

/// A text ends with a suffix exactly where it is something followed by the suffix.
pub proof fn law_suffix_stands_at_the_end(s: Seq<char>, suffix: Seq<char>)
    ensures
        has_suffix(s, suffix) <==> exists|front: Seq<char>| s == #[trigger] (front + suffix),
{
    if has_suffix(s, suffix) {
        let front = s.take(s.len() - suffix.len());
        assert(s =~= front + suffix);
    }
    if exists|front: Seq<char>| s == #[trigger] (front + suffix) {
        let front = choose|front: Seq<char>| s == #[trigger] (front + suffix);
        assert((front + suffix).skip(front.len() as int) =~= suffix);
    }
}

/// Joined parts stand one after the other with the separator between them.
pub proof fn law_join_puts_the_separator_between(
    parts: Seq<Seq<char>>,
    part: Seq<char>,
    sep: Seq<char>,
)
    ensures
        joined(Seq::<Seq<char>>::empty(), sep) == Seq::<char>::empty(),
        joined(seq![part], sep) == part,
        parts.len() > 0 ==> joined(parts.push(part), sep) == joined(parts, sep) + sep + part,
{
    assert(parts.push(part).drop_last() =~= parts);
}

/// The views of texts are the texts, one by one.
pub proof fn law_texts_are_viewed_one_by_one(list: Seq<String>, i: int, o: Option<String>)
    requires
        0 <= i < list.len(),
    ensures
        texts(list).len() == list.len(),
        texts(list)[i] == list[i]@,
        o is None ==> string_view(o) is None,
        o is Some ==> string_view(o) == Some(o->0@),
{
}

/// The order of texts is that of a dictionary by code point: at the first place where two
/// texts differ the lesser character decides, and a text comes before its continuations.
pub proof fn law_order_is_by_code_point(a: Seq<char>, b: Seq<char>)
    ensures
        lt(a, b) <==> exists|k: int|
            #![trigger a.take(k)]
            0 <= k <= a.len() && k < b.len() && a.take(k) == b.take(k) && (k == a.len() || (a[k]
                as int) < (b[k] as int)),
    decreases a.len(),
{
    if a.len() > 0 && b.len() > 0 && a[0] == b[0] {
        let x = a.drop_first();
        let y = b.drop_first();
        law_order_is_by_code_point(x, y);
        if lt(a, b) {
            let k = choose|k: int|
                #![trigger x.take(k)]
                0 <= k <= x.len() && k < y.len() && x.take(k) == y.take(k) && (k == x.len() || (x[k]
                    as int) < (y[k] as int));
            assert(a.take(k + 1) =~= seq![a[0]] + x.take(k));
            assert(b.take(k + 1) =~= seq![b[0]] + y.take(k));
        }
        if exists|k: int|
            #![trigger a.take(k)]
            0 <= k <= a.len() && k < b.len() && a.take(k) == b.take(k) && (k == a.len() || (a[k]
                as int) < (b[k] as int)) {
            let k = choose|k: int|
                #![trigger a.take(k)]
                0 <= k <= a.len() && k < b.len() && a.take(k) == b.take(k) && (k == a.len() || (a[k]
                    as int) < (b[k] as int));
            assert(k > 0);
            assert(x.take(k - 1) =~= a.take(k).drop_first());
            assert(y.take(k - 1) =~= b.take(k).drop_first());
        }
    } else {
        assert(a.take(0) =~= b.take(0));
        if exists|k: int|
            #![trigger a.take(k)]
            0 <= k <= a.len() && k < b.len() && a.take(k) == b.take(k) && (k == a.len() || (a[k]
                as int) < (b[k] as int)) {
            let k = choose|k: int|
                #![trigger a.take(k)]
                0 <= k <= a.len() && k < b.len() && a.take(k) == b.take(k) && (k == a.len() || (a[k]
                    as int) < (b[k] as int));
            if k > 0 {
                assert(a.take(k)[0] == a[0]);
                assert(b.take(k)[0] == b[0]);
            }
        }
    }
}

/// In an ascending list every text comes before all later ones, so that none occurs twice.
pub proof fn law_ascending_lists_rise(list: Seq<Seq<char>>, i: int, j: int)
    requires
        ascending(list),
        0 <= i < j < list.len(),
    ensures
        lt(list[i], list[j]),
        list[i] != list[j],
{
    crate::order::lemma_lt_irreflexive(list[i]);
}

/// The digits of a number are those that stand for it, without a leading zero, and a
/// minus sign stands before a negative one.
pub proof fn law_decimal_is_canonical(n: nat)
    ensures
        value_of(decimal(n)) == n,
        all_digits(decimal(n)),
        decimal(n).len() > 0,
        n > 0 ==> decimal(n)[0] != '0',
        n == 0 ==> decimal(n) == seq!['0'],
        signed_decimal(n as int) == decimal(n),
        n > 0 ==> signed_decimal(-(n as int)) == seq!['-'] + decimal(n),
    decreases n,
{
    law_decimal_reads_back(n);
    if n >= 10 {
        law_decimal_is_canonical(n / 10);
        assert(decimal(n)[0] == decimal(n / 10)[0]);
    } else {
        let digit = ('0' as int + n % 10) as char;
        assert(digit as int == 48 + n);
    }
    if n == 0 {
        assert(decimal(n) =~= seq!['0']);
    }
}

/// Every further digit counts one, and what stood before it ten times as much.
pub proof fn law_digits_count_in_tens(s: Seq<char>, c: char)
    ensures
        value_of(Seq::<char>::empty()) == 0,
        value_of(s.push(c)) == 10 * value_of(s) + (c as int - 48),
        is_digit(c) <==> 48 <= c as int <= 57,
        all_digits(s) <==> forall|i: int| 0 <= i < s.len() ==> 48 <= (#[trigger] s[i]) as int <= 57,
{
    assert(s.push(c).drop_last() =~= s);
}

/// A word is a port exactly where it is digits, with at most a plus sign before them, of a
/// number up to 65535, and the port is that number.
pub proof fn law_ports_are_small_numbers(digits: Seq<char>, word: Seq<char>)
    requires
        digits.len() > 0 ==> digits[0] != '+',
    ensures
        port_of(digits) is Some <==> digits.len() > 0 && all_digits(digits) && value_of(digits)
            <= 65535,
        port_of(digits) is Some ==> port_of(digits)->0 as int == value_of(digits),
        port_of(seq!['+'] + digits) == port_of(digits),
        port_of(seq!['+', '+'] + word) is None,
{
    assert((seq!['+'] + digits).drop_first() =~= digits);
    let twice = seq!['+', '+'] + word;
    assert(twice.drop_first()[0] == '+');
    assert(!all_digits(twice.drop_first()));
    if all_digits(digits) {
        lemma_value_is_natural(digits);
    }
}

proof fn lemma_value_is_natural(s: Seq<char>)
    requires
        all_digits(s),
    ensures
        value_of(s) >= 0,
    decreases s.len(),
{
    if s.len() > 0 {
        assert(is_digit(s[s.len() - 1]));
        lemma_value_is_natural(s.drop_last());
    }
}

/// A time stamp that fits stays, and one that does not becomes the nearest that does.
pub proof fn law_clamping_moves_as_little_as_it_can(n: int, other: i64)
    ensures
        -0x8000_0000_0000_0000 <= n <= 0x7fff_ffff_ffff_ffff ==> clamp_i64(n) == n,
        n > 0x7fff_ffff_ffff_ffff ==> clamp_i64(n) >= other,
        n < -0x8000_0000_0000_0000 ==> clamp_i64(n) <= other,
{
}

/// A pattern fits part by part: one pattern followed by another fits what can be cut in two
/// so that each fits its part.
pub proof fn law_patterns_fit_part_by_part(p: Seq<char>, q: Seq<char>, candidate: Seq<char>)
    ensures
        fits(p + q, candidate) <==> exists|k: int|
            #![trigger candidate.take(k)]
            0 <= k <= candidate.len() && fits(p, candidate.take(k)) && fits(q, candidate.skip(k)),
    decreases p.len(),
{
    let whole = p + q;
    if p.len() == 0 {
        assert(whole =~= q);
        assert(candidate.skip(0) =~= candidate);
        assert(candidate.take(0).len() == 0);
        assert(fits(p, candidate.take(0)));
    } else {
        let rest = p.drop_first();
        assert(whole.drop_first() =~= rest + q);
        if p[0] == '*' {
            if fits(whole, candidate) {
                let j = choose|j: int|
                    0 <= j <= candidate.len() && fits(
                        whole.drop_first(),
                        #[trigger] candidate.skip(j),
                    );
                let left = candidate.skip(j);
                law_patterns_fit_part_by_part(rest, q, left);
                let k = choose|k: int|
                    #![trigger left.take(k)]
                    0 <= k <= left.len() && fits(rest, left.take(k)) && fits(q, left.skip(k));
                assert(candidate.take(j + k).skip(j) =~= left.take(k));
                assert(candidate.skip(j + k) =~= left.skip(k));
                assert(fits(p, candidate.take(j + k)));
            }
            if exists|k: int|
                #![trigger candidate.take(k)]
                0 <= k <= candidate.len() && fits(p, candidate.take(k)) && fits(
                    q,
                    candidate.skip(k),
                ) {
                let k = choose|k: int|
                    #![trigger candidate.take(k)]
                    0 <= k <= candidate.len() && fits(p, candidate.take(k)) && fits(
                        q,
                        candidate.skip(k),
                    );
                let head = candidate.take(k);
                let j = choose|j: int|
                    0 <= j <= head.len() && fits(rest, #[trigger] head.skip(j));
                let left = candidate.skip(j);
                assert(head.skip(j) =~= left.take(k - j));
                assert(candidate.skip(k) =~= left.skip(k - j));
                law_patterns_fit_part_by_part(rest, q, left);
                assert(fits(whole.drop_first(), candidate.skip(j)));
            }
        } else {
            if candidate.len() > 0 {
                let left = candidate.drop_first();
                law_patterns_fit_part_by_part(rest, q, left);
                if fits(whole, candidate) {
                    let k = choose|k: int|
                        #![trigger left.take(k)]
                        0 <= k <= left.len() && fits(rest, left.take(k)) && fits(q, left.skip(k));
                    assert(candidate.take(k + 1).drop_first() =~= left.take(k));
                    assert(candidate.skip(k + 1) =~= left.skip(k));
                    assert(fits(p, candidate.take(k + 1)));
                }
                if exists|k: int|
                    #![trigger candidate.take(k)]
                    0 <= k <= candidate.len() && fits(p, candidate.take(k)) && fits(
                        q,
                        candidate.skip(k),
                    ) {
                    let k = choose|k: int|
                        #![trigger candidate.take(k)]
                        0 <= k <= candidate.len() && fits(p, candidate.take(k)) && fits(
                            q,
                            candidate.skip(k),
                        );
                    assert(k > 0);
                    assert(candidate.take(k).drop_first() =~= left.take(k - 1));
                    assert(candidate.skip(k) =~= left.skip(k - 1));
                }
            }
        }
    }
}

/// A star fits every run of characters, a question mark exactly one character, any other
/// character itself alone, and the empty pattern the empty text.
pub proof fn law_each_sign_of_a_pattern(sign: char, candidate: Seq<char>)
    ensures
        fits(Seq::<char>::empty(), candidate) <==> candidate.len() == 0,
        sign == '*' ==> fits(seq![sign], candidate),
        sign == '?' ==> (fits(seq![sign], candidate) <==> candidate.len() == 1),
        sign != '*' && sign != '?' ==> (fits(seq![sign], candidate) <==> candidate == seq![sign]),
{
    let pattern = seq![sign];
    let rest = pattern.drop_first();
    assert(rest =~= Seq::<char>::empty());
    if sign == '*' {
        assert(fits(rest, candidate.skip(candidate.len() as int)));
    } else if candidate.len() > 0 {
        assert(fits(rest, candidate.drop_first()) <==> candidate.len() == 1);
        if candidate.len() == 1 && candidate[0] == sign {
            assert(candidate =~= seq![sign]);
        }
    }
}

/// A list of patterns admits a text exactly where one of its entries without `!` fits and
/// none of those with `!` does. Entries stand between commas; white space around them, and
/// entries of nothing else, do not count.
pub proof fn law_lists_admit_by_their_entries(list: Seq<char>, candidate: Seq<char>)
    ensures
        list_admits(list, candidate) <==> {
            let entries = split_on(list, ',');
            &&& exists|i: int|
                #![trigger entries[i]]
                0 <= i < entries.len() && trim(entries[i]).len() > 0 && trim(entries[i])[0] != '!'
                    && fits(trim(entries[i]), candidate)
            &&& forall|i: int|
                #![trigger entries[i]]
                0 <= i < entries.len() && trim(entries[i]).len() > 0 && trim(entries[i])[0] == '!'
                    ==> !fits(trim(entries[i]).skip(1), candidate)
        },
{
    let entries = split_on(list, ',');
    assert forall|i: int| 0 <= i < entries.len() && trim(#[trigger] entries[i]).len() > 0 implies trim(
        entries[i],
    ).skip(1) == trim(entries[i]).drop_first() by {
        assert(trim(entries[i]).skip(1) =~= trim(entries[i]).drop_first());
    }
}

} // verus!
