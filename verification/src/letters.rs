//! What trimming, splitting and joining texts promise, and how dates are written.

use vstd::prelude::*;

use crate::calendar;
use crate::calendar::CalendarDate;
use crate::model::note::TODO_TAG;
use crate::model::todo;
use crate::number;
use crate::text;

verus! {

// -------------------------------------------------------------------------- trimming

/// Whether all characters between two positions are white space.
pub open spec fn is_space_between(s: Seq<char>, from: int, to: int) -> bool {
    forall|i: int| from <= i < to ==> text::is_space(#[trigger] s[i])
}

proof fn lemma_trimmed_start(s: Seq<char>) -> (a: int)
    ensures
        0 <= a <= s.len(),
        text::trimmed_start(s) == s.skip(a),
        is_space_between(s, 0, a),
        a < s.len() ==> !text::is_space(s[a]),
    decreases s.len(),
{
    if s.len() > 0 && text::is_space(s[0]) {
        let rest = s.skip(1);
        let b = lemma_trimmed_start(rest);
        assert(rest.skip(b) =~= s.skip(b + 1));
        assert forall|i: int| 0 <= i < b + 1 implies text::is_space(#[trigger] s[i]) by {
            if i > 0 {
                assert(rest[i - 1] == s[i]);
            }
        }
        if b < rest.len() {
            assert(rest[b] == s[b + 1]);
        }
        b + 1
    } else {
        assert(s.skip(0) =~= s);
        0
    }
}

proof fn lemma_trimmed_end(s: Seq<char>) -> (b: int)
    ensures
        0 <= b <= s.len(),
        text::trimmed_end(s) == s.take(b),
        is_space_between(s, b, s.len() as int),
        b > 0 ==> !text::is_space(s[b - 1]),
    decreases s.len(),
{
    if s.len() > 0 && text::is_space(s.last()) {
        let rest = s.drop_last();
        let b = lemma_trimmed_end(rest);
        assert(rest.take(b) =~= s.take(b));
        assert forall|i: int| b <= i < s.len() implies text::is_space(#[trigger] s[i]) by {
            if i < rest.len() {
                assert(rest[i] == s[i]);
            }
        }
        if b > 0 {
            assert(rest[b - 1] == s[b - 1]);
        }
        b
    } else {
        assert(s.take(s.len() as int) =~= s);
        s.len() as int
    }
}

/// A trimmed text is what is left between the white space at both ends: all that is dropped is
/// white space, and what is left neither begins nor ends with any.
pub proof fn law_trimming_drops_white_space(s: Seq<char>)
    ensures
        exists|a: int, b: int|
            {
                &&& 0 <= a <= b <= s.len()
                &&& text::trimmed(s) == #[trigger] s.subrange(a, b)
                &&& is_space_between(s, 0, a) && is_space_between(s, b, s.len() as int)
                &&& a < b ==> !text::is_space(s[a]) && !text::is_space(s[b - 1])
            },
        exists|a: int|
            {
                &&& 0 <= a <= s.len()
                &&& text::trimmed_start(s) == #[trigger] s.skip(a)
                &&& is_space_between(s, 0, a)
                &&& a < s.len() ==> !text::is_space(s[a])
            },
        exists|b: int|
            {
                &&& 0 <= b <= s.len()
                &&& text::trimmed_end(s) == #[trigger] s.take(b)
                &&& is_space_between(s, b, s.len() as int)
                &&& b > 0 ==> !text::is_space(s[b - 1])
            },
{
    let a = lemma_trimmed_start(s);
    let t = s.skip(a);
    let c = lemma_trimmed_end(t);
    let b = a + c;
    assert(t.take(c) =~= s.subrange(a, b));
    assert forall|i: int| b <= i < s.len() implies text::is_space(#[trigger] s[i]) by {
        assert(t[i - a] == s[i]);
    }
    if c > 0 {
        assert(t[c - 1] == s[b - 1]);
    }
    let e = lemma_trimmed_end(s);
    assert(text::trimmed_end(s) == s.take(e));
    assert(text::trimmed(s) == s.subrange(a, b));
}

// ---------------------------------------------------------------------------- words

/// Whether ranges of a text are its words: they do not touch, and a character lies in one of
/// them just where it is no white space.
pub open spec fn are_runs(at: Seq<(int, int)>, s: Seq<char>) -> bool {
    &&& forall|i: int|
        0 <= i < at.len() ==> 0 <= (#[trigger] at[i]).0 < at[i].1 && at[i].1 <= s.len()
    &&& forall|i: int, j: int|
        0 <= i < j < at.len() ==> (#[trigger] at[i]).1 < (#[trigger] at[j]).0
    &&& forall|p: int|
        0 <= p < s.len() ==> (text::is_space(#[trigger] s[p]) <==> !lies_in(at, p))
}

/// Whether a position lies in one of some ranges.
pub open spec fn lies_in(at: Seq<(int, int)>, p: int) -> bool {
    exists|i: int| 0 <= i < at.len() && (#[trigger] at[i]).0 <= p < at[i].1
}

proof fn lemma_runs(s: Seq<char>) -> (at: Seq<(int, int)>)
    ensures
        are_runs(at, s),
        at.len() == text::words(s).len(),
        forall|i: int|
            0 <= i < at.len() ==> text::words(s)[i] == s.subrange(
                (#[trigger] at[i]).0,
                at[i].1,
            ),
    decreases s.len(),
{
    if s.len() == 0 {
        Seq::empty()
    } else {
        let n = s.len() - 1;
        let front = s.drop_last();
        let head = lemma_runs(front);
        let before = text::words(front);
        let all = text::words(s);
        assert forall|p: int| 0 <= p < n implies #[trigger] front[p] == s[p] by {}
        assert forall|i: int| 0 <= i < head.len() implies front.subrange(
            (#[trigger] head[i]).0,
            head[i].1,
        ) == s.subrange(head[i].0, head[i].1) by {
            assert(front.subrange(head[i].0, head[i].1) =~= s.subrange(head[i].0, head[i].1));
        }
        if text::is_space(s.last()) {
            assert forall|p: int| 0 <= p < s.len() implies (text::is_space(#[trigger] s[p])
                <==> !lies_in(head, p)) by {
                if p < n {
                    assert(front[p] == s[p]);
                }
            }
            head
        } else if s.len() >= 2 && !text::is_space(s[s.len() - 2]) {
            assert(!text::is_space(front[n - 1]));
            assert(lies_in(head, n - 1));
            let i = choose|i: int| 0 <= i < head.len() && (#[trigger] head[i]).0 <= n - 1 < head[i].1;
            let m = head.len() - 1;
            if i < m {
                assert(head[i].1 < head[m].0);
            }
            assert(i == m && head[m].1 == n);
            let at = head.update(m, (head[m].0, n + 1));
            assert forall|p: int| 0 <= p < s.len() implies (text::is_space(#[trigger] s[p])
                <==> !lies_in(at, p)) by {
                if p < n {
                    assert(front[p] == s[p]);
                    if lies_in(head, p) {
                        let j = choose|j: int|
                            0 <= j < head.len() && (#[trigger] head[j]).0 <= p < head[j].1;
                        assert(at[j].0 <= p < at[j].1);
                    }
                    if lies_in(at, p) {
                        let j = choose|j: int|
                            0 <= j < at.len() && (#[trigger] at[j]).0 <= p < at[j].1;
                        assert(head[j].0 <= p < head[j].1);
                    }
                } else {
                    assert(at[m].0 <= p < at[m].1);
                }
            }
            assert forall|j: int| 0 <= j < at.len() implies all[j] == s.subrange(
                (#[trigger] at[j]).0,
                at[j].1,
            ) by {
                if j < m {
                    assert(at[j] == head[j]);
                    assert(all[j] == before[j]);
                } else {
                    assert(before[m] == front.subrange(head[m].0, head[m].1));
                    assert(all[m] =~= s.subrange(head[m].0, n + 1));
                }
            }
            at
        } else {
            let at = head.push((n, n + 1));
            if n > 0 {
                assert(text::is_space(front[n - 1]));
                assert(!lies_in(head, n - 1));
            }
            assert forall|i: int| 0 <= i < head.len() implies (#[trigger] head[i]).1 < n by {
                if head[i].1 >= n {
                    assert(head[i].0 <= n - 1 < head[i].1);
                    assert(lies_in(head, n - 1));
                }
            }
            assert forall|p: int| 0 <= p < s.len() implies (text::is_space(#[trigger] s[p])
                <==> !lies_in(at, p)) by {
                if p < n {
                    assert(front[p] == s[p]);
                    if lies_in(head, p) {
                        let j = choose|j: int|
                            0 <= j < head.len() && (#[trigger] head[j]).0 <= p < head[j].1;
                        assert(at[j].0 <= p < at[j].1);
                    }
                    if lies_in(at, p) {
                        let j = choose|j: int|
                            0 <= j < at.len() && (#[trigger] at[j]).0 <= p < at[j].1;
                        assert(head[j].0 <= p < head[j].1);
                    }
                } else {
                    assert(at[head.len() as int].0 <= p < at[head.len() as int].1);
                }
            }
            assert forall|j: int| 0 <= j < at.len() implies all[j] == s.subrange(
                (#[trigger] at[j]).0,
                at[j].1,
            ) by {
                if j < head.len() {
                    assert(at[j] == head[j]);
                    assert(all[j] == before[j]);
                } else {
                    assert(all[j] =~= s.subrange(n, n + 1));
                }
            }
            at
        }
    }
}

/// The words of a text are its longest runs without white space, in order, and nothing but
/// white space is left out.
pub proof fn law_words_are_the_runs(s: Seq<char>)
    ensures
        exists|at: Seq<(int, int)>|
            {
                &&& #[trigger] are_runs(at, s)
                &&& at.len() == text::words(s).len()
                &&& forall|i: int|
                    0 <= i < at.len() ==> text::words(s)[i] == s.subrange(
                        (#[trigger] at[i]).0,
                        at[i].1,
                    )
            },
{
    let at = lemma_runs(s);
    assert(are_runs(at, s));
}

// --------------------------------------------------------------- splitting and joining

/// Splitting at a character and joining with it undo each other, and no piece of a split holds
/// the character.
pub proof fn law_split_and_join(s: Seq<char>, parts: Seq<Seq<char>>, sep: char)
    ensures
        text::joined(text::split_on(s, sep), seq![sep]) == s,
        forall|i: int|
            0 <= i < text::split_on(s, sep).len() ==> !(#[trigger] text::split_on(
                s,
                sep,
            )[i]).contains(sep),
        parts.len() > 0 && (forall|i: int|
            0 <= i < parts.len() ==> !(#[trigger] parts[i]).contains(sep)) ==> text::split_on(
            text::joined(parts, seq![sep]),
            sep,
        ) == parts,
{
    text::lemma_split_joined(s, sep);
    text::lemma_split_pieces(s, sep);
    if parts.len() > 0 && (forall|i: int|
        0 <= i < parts.len() ==> !(#[trigger] parts[i]).contains(sep)) {
        text::lemma_joined_split(parts, sep);
    }
}

/// Joined texts are the first ones joined, the separator, and the others joined; one text is
/// itself.
pub proof fn law_joining(a: Seq<Seq<char>>, b: Seq<Seq<char>>, one: Seq<char>, sep: Seq<char>)
    ensures
        text::joined(Seq::empty(), sep).len() == 0,
        text::joined(seq![one], sep) == one,
        a.len() > 0 && b.len() > 0 ==> text::joined(a + b, sep) == text::joined(a, sep) + sep
            + text::joined(b, sep),
{
    if a.len() > 0 && b.len() > 0 {
        text::lemma_joined_concat(a, b, sep);
    }
}

proof fn lemma_normalized_concat(a: Seq<char>, b: Seq<char>)
    requires
        !(a.len() > 0 && b.len() > 0 && a.last() == '\r' && b[0] == '\n'),
    ensures
        text::normalized(a + b) == text::normalized(a) + text::normalized(b),
    decreases b.len(),
{
    if b.len() == 0 {
        assert(a + b =~= a);
        assert(text::normalized(a) + text::normalized(b) =~= text::normalized(a));
    } else {
        let s = a + b;
        let front = b.drop_last();
        assert(s.drop_last() =~= a + front);
        lemma_normalized_concat(a, front);
        if b.len() >= 2 {
            assert(s[s.len() - 2] == b[b.len() - 2]);
        } else if a.len() > 0 {
            assert(s[s.len() - 2] == a.last());
        }
        assert(text::normalized(s) =~= text::normalized(a) + text::normalized(b));
    }
}

/// Line ends are written one way: a newline alone, a carriage return alone and the two together
/// are each one newline. Parts of a text that do not tear such a pair apart are treated each by
/// itself, and a text without carriage returns stays as it is.
pub proof fn law_line_ends(a: Seq<char>, b: Seq<char>)
    ensures
        text::normalized(seq!['\n']) == seq!['\n'],
        text::normalized(seq!['\r']) == seq!['\n'],
        text::normalized(seq!['\r', '\n']) == seq!['\n'],
        !(a.len() > 0 && b.len() > 0 && a.last() == '\r' && b[0] == '\n') ==> text::normalized(
            a + b,
        ) == text::normalized(a) + text::normalized(b),
        !a.contains('\r') ==> text::normalized(a) == a,
{
    reveal_with_fuel(text::normalized, 3);
    assert(seq!['\n'].drop_last() =~= Seq::<char>::empty());
    assert(seq!['\r'].drop_last() =~= Seq::<char>::empty());
    assert(seq!['\r', '\n'].drop_last() =~= seq!['\r']);
    assert(text::normalized(seq!['\n']) =~= seq!['\n']);
    assert(text::normalized(seq!['\r']) =~= seq!['\n']);
    assert(text::normalized(seq!['\r', '\n']) =~= seq!['\n']);
    if !(a.len() > 0 && b.len() > 0 && a.last() == '\r' && b[0] == '\n') {
        lemma_normalized_concat(a, b);
    }
    if !a.contains('\r') {
        text::lemma_normalized_same(a);
    }
}

/// The lines of a text are what stands before each newline, without a carriage return at its
/// end, and what is left behind the last one, if anything is.
pub proof fn law_lines_of_a_text(l: Seq<char>, rest: Seq<char>)
    requires
        !l.contains('\n'),
    ensures
        text::lines_of(Seq::empty()).len() == 0,
        l.len() > 0 ==> text::lines_of(l) == seq![l],
        text::lines_of(l + seq!['\n'] + rest) == seq![
            if l.len() > 0 && l.last() == '\r' {
                l.take(l.len() - 1)
            } else {
                l
            },
        ] + text::lines_of(rest),
{
    let none = Seq::<char>::empty();
    text::lemma_split_whole(l, '\n');
    text::lemma_split_whole(none, '\n');
    text::lemma_split_concat(l, rest, '\n');
    text::lemma_split_pieces(rest, '\n');
    assert(text::lines_of(none) =~= Seq::<Seq<char>>::empty());
    if l.len() > 0 {
        assert(seq![l].drop_last() =~= Seq::<Seq<char>>::empty());
        assert(text::lines_of(l) =~= seq![l]);
    }
    let parts = text::split_on(rest, '\n');
    let all = seq![l] + parts;
    assert(text::split_on(l + seq!['\n'] + rest, '\n') == all);
    assert(all.drop_last() =~= seq![l] + parts.drop_last());
    assert(all.last() == parts.last());
    assert(l.len() > 0 ==> l.drop_last() =~= l.take(l.len() - 1));
    assert(text::lines_of(l + seq!['\n'] + rest) =~= seq![text::without_return(l)]
        + text::lines_of(rest));
}

/// The first characters of a text are its beginning, as long as asked for or as the text is.
pub proof fn law_first_characters(s: Seq<char>, n: nat)
    ensures
        text::first_chars(s, n).len() == if s.len() < n {
            s.len()
        } else {
            n
        },
        forall|i: int|
            0 <= i < text::first_chars(s, n).len() ==> #[trigger] text::first_chars(s, n)[i]
                == s[i],
{
}

// ---------------------------------------------------------------------------- dates

/// A number below a hundred has two digits with zeros in front, one below ten thousand four.
proof fn lemma_padded(n: nat)
    ensures
        n < 100 ==> number::padded(n, 2).len() == 2,
        n < 10000 ==> number::padded(n, 4).len() == 4,
        number::all_digits(number::padded(n, 2)),
        number::all_digits(number::padded(n, 4)),
        number::digits_value(number::padded(n, 2)) == n,
        number::digits_value(number::padded(n, 4)) == n,
{
    number::lemma_decimal(n);
    reveal_with_fuel(number::decimal, 5);
    lemma_zeros(2 - number::decimal(n).len(), number::decimal(n));
    lemma_zeros(4 - number::decimal(n).len(), number::decimal(n));
}

/// Zeros in front do not change a number.
proof fn lemma_zeros(k: int, s: Seq<char>)
    requires
        number::all_digits(s),
    ensures
        number::all_digits(number::zeros(k) + s),
        number::digits_value(number::zeros(k) + s) == number::digits_value(s),
    decreases s.len(), k,
{
    let all = number::zeros(k) + s;
    assert forall|i: int| 0 <= i < all.len() implies text::is_digit(#[trigger] all[i]) by {
        if i >= number::zeros(k).len() {
            assert(all[i] == s[i - number::zeros(k).len()]);
        }
    }
    if s.len() > 0 {
        assert(number::all_digits(s.drop_last())) by {
            assert forall|i: int| 0 <= i < s.drop_last().len() implies text::is_digit(
                #[trigger] s.drop_last()[i],
            ) by {
                assert(s[i] == s.drop_last()[i]);
            }
        }
        lemma_zeros(k, s.drop_last());
        assert(all.drop_last() =~= number::zeros(k) + s.drop_last());
    } else if k > 0 {
        lemma_zeros(k - 1, s);
        assert(all.drop_last() =~= number::zeros(k - 1) + s);
        assert(all.last() == '0');
    } else {
        assert(all =~= s);
    }
}

/// A date in a year of four digits is written so that it is read back: four digits, two and two,
/// with hyphens between them.
pub proof fn law_date_reads_back(date: CalendarDate)
    requires
        date.is_valid(),
        0 <= date.year <= 9999,
    ensures
        calendar::is_plain_date(calendar::date_text(date)),
        calendar::plain_date(calendar::date_text(date)) == (
            date.year as int,
            date.month as int,
            date.day as int,
        ),
{
    let s = calendar::date_text(date);
    let y = number::padded(date.year as nat, 4);
    let m = number::padded(date.month as nat, 2);
    let d = number::padded(date.day as nat, 2);
    lemma_padded(date.year as nat);
    lemma_padded(date.month as nat);
    lemma_padded(date.day as nat);
    assert(s.len() == 10);
    assert(s.subrange(0, 4) =~= y);
    assert(s.subrange(5, 7) =~= m);
    assert(s.subrange(8, 10) =~= d);
}

/// A year has a day more where its number can be divided by four and not by a hundred, or by
/// four hundred.
pub proof fn law_days_of_a_year(year: int)
    ensures
        calendar::days_before(year, 12) + calendar::month_days(year, 12) == if (year % 4 == 0
            && year % 100 != 0) || year % 400 == 0 {
            366int
        } else {
            365
        },
{
    reveal_with_fuel(calendar::days_before, 13);
}

/// A quotient of consecutive numbers grows by one where the second can be divided.
proof fn lemma_next_quotient(n: int, d: int)
    requires
        d == 4 || d == 100 || d == 400,
    ensures
        n / d - (n - 1) / d == if n % d == 0 {
            1int
        } else {
            0
        },
{
    if d == 4 {
        assert(n / 4 - (n - 1) / 4 == if n % 4 == 0 {
            1int
        } else {
            0
        });
    } else if d == 100 {
        assert(n / 100 - (n - 1) / 100 == if n % 100 == 0 {
            1int
        } else {
            0
        });
    } else {
        assert(n / 400 - (n - 1) / 400 == if n % 400 == 0 {
            1int
        } else {
            0
        });
    }
}

/// The days of the week follow each other without a gap: from one day of a month to the next,
/// from the last day of a month to the first of the next, and from the last day of a year to
/// the first of the next.
pub proof fn law_weekdays_follow_each_other(year: int, month: int, day: int)
    requires
        1 <= month <= 12,
        1 <= day <= calendar::month_days(year, month),
    ensures
        0 <= calendar::weekday(year, month, day) < 7,
        ({
            let (y, m, d) = if day < calendar::month_days(year, month) {
                (year, month, day + 1)
            } else if month < 12 {
                (year, month + 1, 1)
            } else {
                (year + 1, 1, 1)
            };
            calendar::weekday(y, m, d) == (calendar::weekday(year, month, day) + 1) % 7
        }),
{
    let n = calendar::day_number(year, month, day);
    if day < calendar::month_days(year, month) {
        assert(calendar::day_number(year, month, day + 1) == n + 1);
    } else if month < 12 {
        assert(calendar::day_number(year, month + 1, 1) == n + 1);
    } else {
        law_days_of_a_year(year);
        lemma_next_quotient(year, 4);
        lemma_next_quotient(year, 100);
        lemma_next_quotient(year, 400);
        lemma_year_parts(year);
        assert(calendar::day_number(year + 1, 1, 1) == n + 1);
    }
}

/// A number that can be divided by four hundred can be divided by a hundred and by four.
proof fn lemma_year_parts(year: int)
    ensures
        year % 400 == 0 ==> year % 100 == 0,
        year % 100 == 0 ==> year % 4 == 0,
{
}

/// The heading of a task list names the day and the day of the week, counted from Sunday.
pub proof fn law_heading_names_the_day(date: CalendarDate)
    requires
        date.is_valid(),
        0 <= date.year <= 9999,
    ensures
        ({
            let h = todo::heading_text(date);
            let w = calendar::weekday(date.year as int, date.month as int, date.day as int);
            &&& h.len() == 19
            &&& h.take(6) == seq!['T', 'o', 'D', 'o', ':', ' ']
            &&& number::digits_value(h.subrange(6, 10)) == date.year
            &&& h[10] == '/'
            &&& number::digits_value(h.subrange(11, 13)) == date.month
            &&& h[13] == '/'
            &&& number::digits_value(h.subrange(14, 16)) == date.day
            &&& h[16] == '（' && h[18] == '）'
            &&& 0 <= w < 7 && h[17] == seq!['日', '月', '火', '水', '木', '金', '土'][w]
        }),
{
    reveal_strlit("ToDo");
    let h = todo::heading_text(date);
    let y = number::padded(date.year as nat, 4);
    let m = number::padded(date.month as nat, 2);
    let d = number::padded(date.day as nat, 2);
    lemma_padded(date.year as nat);
    lemma_padded(date.month as nat);
    lemma_padded(date.day as nat);
    assert(TODO_TAG@ =~= seq!['T', 'o', 'D', 'o']);
    assert(h.subrange(6, 10) =~= y);
    assert(h.subrange(11, 13) =~= m);
    assert(h.subrange(14, 16) =~= d);
    assert(h.take(6) =~= seq!['T', 'o', 'D', 'o', ':', ' ']);
}

/// A year of more than four digits, and one before the year 0, is written with its sign.
pub proof fn law_far_years_have_a_sign(year: int)
    ensures
        year > 9999 ==> calendar::date_year(year) == seq!['+'] + number::decimal(year as nat),
        year < -999 ==> calendar::date_year(year) == seq!['-'] + number::decimal((-year) as nat),
        -9999 <= year < 0 ==> calendar::date_year(year).len() == 5 && calendar::date_year(year)[0]
            == '-' && number::digits_value(calendar::date_year(year).skip(1)) == -year,
        0 <= year <= 9999 ==> calendar::date_year(year).len() == 4 && number::digits_value(
            calendar::date_year(year),
        ) == year,
{
    let n = if year < 0 {
        (-year) as nat
    } else {
        year as nat
    };
    lemma_padded(n);
    number::lemma_decimal(n);
    if n > 999 {
        lemma_four_digits(n);
        assert(number::zeros((4 - number::decimal(n).len()) as int) + number::decimal(n)
            =~= number::decimal(n));
    }
    if year < 0 {
        assert(calendar::date_year(year).skip(1) =~= number::padded(n, 4));
    }
}

/// A number of a thousand or more has at least four digits.
proof fn lemma_four_digits(n: nat)
    requires
        n >= 1000,
    ensures
        number::decimal(n).len() >= 4,
{
    reveal_with_fuel(number::decimal, 4);
    number::lemma_decimal(n / 1000);
}

} // verus!
