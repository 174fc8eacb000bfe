//! Character-level text: splitting, joining, trimming, decimal numbers.

use vstd::prelude::*;
use vstd::string::*;

verus! {

/// How many characters stand before the first `c` of `s`; all of them where `c` does not occur.
pub open spec fn head_len(s: Seq<char>, c: char) -> nat
    decreases s.len(),
{
    if s.len() == 0 || s[0] == c {
        0
    } else {
        1 + head_len(s.skip(1), c)
    }
}

/// The pieces of `s` between the occurrences of `sep`, in order. There is always at least one.
pub open spec fn split_on(s: Seq<char>, sep: char) -> Seq<Seq<char>>
    decreases s.len(),
{
    let n = head_len(s, sep) as int;
    if n >= s.len() {
        seq![s]
    } else {
        seq![s.take(n)] + split_on(s.skip(n + 1), sep)
    }
}

/// The parts in order, with one `sep` between each two neighbours.
pub open spec fn join_with(parts: Seq<Seq<char>>, sep: Seq<char>) -> Seq<char>
    decreases parts.len(),
{
    if parts.len() == 0 {
        seq![]
    } else if parts.len() == 1 {
        parts[0]
    } else {
        join_with(parts.drop_last(), sep) + sep + parts.last()
    }
}

/// `s` without the occurrences of `c` at its end.
pub open spec fn trim_end_char(s: Seq<char>, c: char) -> Seq<char>
    decreases s.len(),
{
    if s.len() > 0 && s.last() == c {
        trim_end_char(s.drop_last(), c)
    } else {
        s
    }
}

/// The parts that hold at least one character, in order.
pub open spec fn non_empty_parts(parts: Seq<Seq<char>>) -> Seq<Seq<char>>
    decreases parts.len(),
{
    if parts.len() == 0 {
        seq![]
    } else {
        let rest = non_empty_parts(parts.drop_last());
        if parts.last().len() > 0 {
            rest.push(parts.last())
        } else {
            rest
        }
    }
}

/// The Unicode property `White_Space`.
pub open spec fn white_space(c: char) -> bool {
    ||| '\u{9}' <= c <= '\u{d}'
    ||| c == ' '
    ||| c == '\u{85}'
    ||| c == '\u{a0}'
    ||| c == '\u{1680}'
    ||| '\u{2000}' <= c <= '\u{200a}'
    ||| c == '\u{2028}'
    ||| c == '\u{2029}'
    ||| c == '\u{202f}'
    ||| c == '\u{205f}'
    ||| c == '\u{3000}'
}

/// `s` without the white space at its start.
pub open spec fn trim_start_white(s: Seq<char>) -> Seq<char>
    decreases s.len(),
{
    if s.len() > 0 && white_space(s[0]) {
        trim_start_white(s.skip(1))
    } else {
        s
    }
}

/// `s` without the white space at its end.
pub open spec fn trim_end_white(s: Seq<char>) -> Seq<char>
    decreases s.len(),
{
    if s.len() > 0 && white_space(s.last()) {
        trim_end_white(s.drop_last())
    } else {
        s
    }
}

/// `s` without the white space at either end.
pub open spec fn trimmed(s: Seq<char>) -> Seq<char> {
    trim_end_white(trim_start_white(s))
}

/// The character of a decimal digit.
pub open spec fn digit(d: nat) -> char {
    ('0' as u32 + d) as char
}

/// `n` in decimal, without leading zeros.
pub open spec fn decimal(n: nat) -> Seq<char>
    decreases n,
{
    if n < 10 {
        seq![digit(n)]
    } else {
        decimal(n / 10).push(digit(n % 10))
    }
}

/// What the strings of a list hold.
pub open spec fn texts(list: Seq<String>) -> Seq<Seq<char>> {
    list.map_values(|s: String| s@)
}

/// `str::trim`: the text without leading and trailing characters that have the Unicode
/// property `White_Space`.
pub assume_specification[ str::trim ](s: &str) -> (r: &str)
    ensures
        r@ == trimmed(s@),
;

/// The characters of a string, one by one.
pub fn chars_of(s: &str) -> (r: Vec<char>)
    ensures
        r@ == s@,
{
    let mut out: Vec<char> = Vec::new();
    for c in it: s.chars()
        invariant
            out@ == it.seq().take(it.index()),
            it.seq() == s@,
    {
        out.push(c);
    }
    out
}

/// Where the first `c` at or after `from` stands; the length where there is none.
fn find_char(chars: &Vec<char>, from: usize, c: char) -> (r: usize)
    requires
        from <= chars@.len(),
    ensures
        from <= r <= chars@.len(),
        r - from == head_len(chars@.skip(from as int), c),
{
    let mut i: usize = from;
    proof {
        assert(chars@.skip(from as int).skip(0) =~= chars@.skip(from as int));
    }
    while i < chars.len() && chars[i] != c
        invariant
            from <= i <= chars@.len(),
            head_len(chars@.skip(from as int), c) == (i - from) + head_len(chars@.skip(i as int), c),
        decreases chars@.len() - i,
    {
        proof {
            assert(chars@.skip(i as int).skip(1) =~= chars@.skip(i + 1));
        }
        i = i + 1;
    }
    i
}

/// The first occurrence is inside the text or at its end.
pub proof fn lemma_head_len_bound(s: Seq<char>, c: char)
    ensures
        head_len(s, c) <= s.len(),
        head_len(s, c) < s.len() ==> s[head_len(s, c) as int] == c,
        forall|i: int| 0 <= i < head_len(s, c) ==> s[i] != c,
    decreases s.len(),
{
    if s.len() > 0 && s[0] != c {
        lemma_head_len_bound(s.skip(1), c);
        assert forall|i: int| 0 <= i < head_len(s, c) implies s[i] != c by {
            if i > 0 {
                assert(s[i] == s.skip(1)[i - 1]);
            }
        }
    }
}

/// The pieces of `s` between the occurrences of `sep`.
pub fn split_text(s: &str, sep: char) -> (r: Vec<String>)
    ensures
        texts(r@) == split_on(s@, sep),
{
    let chars = chars_of(s);
    let n: usize = chars.len();
    let mut out: Vec<String> = Vec::new();
    let mut start: usize = 0;
    proof {
        assert(s@.skip(0) =~= s@);
        assert(texts(out@) =~= seq![]);
        assert(seq![] + split_on(s@, sep) =~= split_on(s@, sep));
    }
    loop
        invariant_except_break
            texts(out@) + split_on(s@.skip(start as int), sep) == split_on(s@, sep),
        invariant
            chars@ == s@,
            n == chars@.len(),
            start <= n,
        ensures
            texts(out@) == split_on(s@, sep),
        decreases n - start,
    {
        let end = find_char(&chars, start, sep);
        let ghost before = texts(out@);
        out.push(s.substring_char(start, end).to_owned());
        proof {
            assert(texts(out@) =~= before.push(s@.subrange(start as int, end as int)));
        }
        if end == n {
            proof {
                assert(s@.subrange(start as int, end as int) =~= s@.skip(start as int));
            }
            break;
        }
        proof {
            let rest = s@.skip(start as int);
            assert(rest.take(end - start) =~= s@.subrange(start as int, end as int));
            assert(rest.skip(end - start + 1) =~= s@.skip(end + 1));
            assert(before.push(s@.subrange(start as int, end as int)) + split_on(
                s@.skip(end + 1),
                sep,
            ) =~= before + split_on(rest, sep));
        }
        start = end + 1;
    }
    out
}

/// `str::split_once` for one character: what stands before the first `c` and what stands
/// after it, where there is one.
pub fn split_once_text(s: &str, c: char) -> (r: Option<(String, String)>)
    ensures
        match r {
            Some(p) => {
                &&& head_len(s@, c) < s@.len()
                &&& p.0@ == s@.take(head_len(s@, c) as int)
                &&& p.1@ == s@.skip(head_len(s@, c) as int + 1)
            },
            None => head_len(s@, c) >= s@.len(),
        },
{
    let chars = chars_of(s);
    proof {
        assert(s@.skip(0) =~= s@);
    }
    let i = find_char(&chars, 0, c);
    let n: usize = chars.len();
    if i == n {
        None
    } else {
        proof {
            assert(s@.subrange(0, i as int) =~= s@.take(i as int));
            assert(s@.subrange(i + 1, n as int) =~= s@.skip(i + 1));
        }
        Some((s.substring_char(0, i).to_owned(), s.substring_char(i + 1, n).to_owned()))
    }
}

/// The strings in order, with one `sep` between each two neighbours.
pub fn join_texts(parts: &Vec<String>, sep: &str) -> (r: String)
    ensures
        r@ == join_with(texts(parts@), sep@),
{
    let mut out = String::new();
    let mut i: usize = 0;
    let ghost all = texts(parts@);
    while i < parts.len()
        invariant
            i <= parts@.len(),
            all == texts(parts@),
            out@ == join_with(all.take(i as int), sep@),
        decreases parts@.len() - i,
    {
        proof {
            assert(all.take(i + 1).drop_last() =~= all.take(i as int));
            assert(all.take(i + 1).last() == parts@[i as int]@);
        }
        if i > 0 {
            out.append(sep);
        }
        out.append(parts[i].as_str());
        i = i + 1;
    }
    proof {
        assert(all.take(parts@.len() as int) =~= all);
    }
    out
}

/// The strings that hold at least one character, in order.
pub fn non_empty(parts: Vec<String>) -> (r: Vec<String>)
    ensures
        texts(r@) == non_empty_parts(texts(parts@)),
{
    let mut out: Vec<String> = Vec::new();
    let mut i: usize = 0;
    let ghost all = texts(parts@);
    proof {
        assert(texts(out@) =~= seq![]);
    }
    while i < parts.len()
        invariant
            i <= parts@.len(),
            all == texts(parts@),
            texts(out@) == non_empty_parts(all.take(i as int)),
        decreases parts@.len() - i,
    {
        proof {
            assert(all.take(i + 1).drop_last() =~= all.take(i as int));
            assert(all.take(i + 1).last() == parts@[i as int]@);
        }
        let ghost before = texts(out@);
        if !parts[i].as_str().is_empty() {
            out.push(parts[i].clone());
            proof {
                assert(texts(out@) =~= before.push(parts@[i as int]@));
            }
        }
        i = i + 1;
    }
    proof {
        assert(all.take(parts@.len() as int) =~= all);
    }
    out
}

/// `str::trim_end_matches` for one character.
pub fn trim_end_text(s: &str, c: char) -> (r: String)
    ensures
        r@ == trim_end_char(s@, c),
{
    let chars = chars_of(s);
    let mut n: usize = chars.len();
    proof {
        assert(s@.take(n as int) =~= s@);
    }
    while n > 0 && chars[n - 1] == c
        invariant
            n <= chars@.len(),
            chars@ == s@,
            trim_end_char(s@, c) == trim_end_char(s@.take(n as int), c),
        decreases n,
    {
        proof {
            assert(s@.take(n as int).drop_last() =~= s@.take(n - 1));
        }
        n = n - 1;
    }
    proof {
        assert(s@.subrange(0, n as int) =~= s@.take(n as int));
    }
    s.substring_char(0, n).to_owned()
}

/// Whether two strings hold the same characters.
pub fn same_text(a: &str, b: &str) -> (r: bool)
    ensures
        r == (a@ == b@),
{
    a.to_owned() == b.to_owned()
}

fn digit_text(d: u64) -> (r: &'static str)
    requires
        d < 10,
    ensures
        r@ == seq![digit(d as nat)],
{
    proof {
        reveal_strlit("0");
        reveal_strlit("1");
        reveal_strlit("2");
        reveal_strlit("3");
        reveal_strlit("4");
        reveal_strlit("5");
        reveal_strlit("6");
        reveal_strlit("7");
        reveal_strlit("8");
        reveal_strlit("9");
    }
    if d == 0 {
        "0"
    } else if d == 1 {
        "1"
    } else if d == 2 {
        "2"
    } else if d == 3 {
        "3"
    } else if d == 4 {
        "4"
    } else if d == 5 {
        "5"
    } else if d == 6 {
        "6"
    } else if d == 7 {
        "7"
    } else if d == 8 {
        "8"
    } else {
        "9"
    }
}

/// `n` in decimal, as `Display` writes it.
pub fn decimal_text(n: u64) -> (r: String)
    ensures
        r@ == decimal(n as nat),
    decreases n,
{
    if n < 10 {
        digit_text(n).to_owned()
    } else {
        let mut out = decimal_text(n / 10);
        out.append(digit_text(n % 10));
        out
    }
}

/// Splitting a text at one separator first, and each side after that, gives the same pieces.
pub proof fn lemma_split_concat(a: Seq<char>, b: Seq<char>, sep: char)
    ensures
        split_on(a + seq![sep] + b, sep) == split_on(a, sep) + split_on(b, sep),
    decreases a.len(),
{
    let whole = a + seq![sep] + b;
    let n = head_len(a, sep) as int;
    lemma_head_len_bound(a, sep);
    lemma_head_len_concat(a, seq![sep] + b, sep);
    assert(whole =~= a + (seq![sep] + b));
    if n >= a.len() {
        assert(whole.take(n) =~= a);
        assert(whole.skip(n + 1) =~= b);
    } else {
        assert(whole.take(n) =~= a.take(n));
        assert(whole.skip(n + 1) =~= a.skip(n + 1) + seq![sep] + b);
        lemma_split_concat(a.skip(n + 1), b, sep);
        assert(seq![a.take(n)] + (split_on(a.skip(n + 1), sep) + split_on(b, sep)) =~= (seq![
            a.take(n),
        ] + split_on(a.skip(n + 1), sep)) + split_on(b, sep));
    }
}

/// Where the first `c` stands in `a + b`, when `b` starts with `c`.
pub proof fn lemma_head_len_concat(a: Seq<char>, b: Seq<char>, c: char)
    requires
        b.len() > 0,
        b[0] == c,
    ensures
        head_len(a + b, c) == head_len(a, c),
    decreases a.len(),
{
    if a.len() > 0 && a[0] != c {
        lemma_head_len_concat(a.skip(1), b, c);
        assert((a + b).skip(1) =~= a.skip(1) + b);
    }
}

/// Where `c` does not occur, it is found at the end.
pub proof fn lemma_head_len_absent(s: Seq<char>, c: char)
    requires
        forall|i: int| 0 <= i < s.len() ==> s[i] != c,
    ensures
        head_len(s, c) == s.len(),
    decreases s.len(),
{
    if s.len() > 0 {
        assert forall|i: int| 0 <= i < s.skip(1).len() implies s.skip(1)[i] != c by {
            assert(s.skip(1)[i] == s[i + 1]);
        }
        lemma_head_len_absent(s.skip(1), c);
    }
}

/// Splitting undoes joining, where no part holds the separator.
pub proof fn lemma_split_join(parts: Seq<Seq<char>>, sep: char)
    requires
        parts.len() > 0,
        forall|i: int, j: int|
            0 <= i < parts.len() && 0 <= j < parts[i].len() ==> #[trigger] parts[i][j] != sep,
    ensures
        split_on(join_with(parts, seq![sep]), sep) == parts,
    decreases parts.len(),
{
    let last = parts.last();
    assert forall|j: int| 0 <= j < last.len() implies last[j] != sep by {
        assert(parts[parts.len() - 1][j] != sep);
    }
    lemma_head_len_absent(last, sep);
    assert(split_on(last, sep) =~= seq![last]);
    if parts.len() == 1 {
        assert(parts =~= seq![last]);
    } else {
        let init = parts.drop_last();
        assert forall|i: int, j: int|
            0 <= i < init.len() && 0 <= j < init[i].len() implies #[trigger] init[i][j] != sep by {
            assert(parts[i][j] != sep);
        }
        lemma_split_join(init, sep);
        lemma_split_concat(join_with(init, seq![sep]), last, sep);
        assert(init + seq![last] =~= parts);
    }
}

/// No piece of a split text holds the separator.
pub proof fn lemma_split_pieces(s: Seq<char>, sep: char)
    ensures
        split_free(split_on(s, sep), sep),
    decreases s.len(),
{
    let n = head_len(s, sep) as int;
    lemma_head_len_bound(s, sep);
    if n < s.len() {
        lemma_split_pieces(s.skip(n + 1), sep);
        let rest = split_on(s.skip(n + 1), sep);
        let all = split_on(s, sep);
        assert forall|i: int, j: int|
            0 <= i < all.len() && 0 <= j < all[i].len() implies #[trigger] all[i][j] != sep by {
            if i > 0 {
                assert(all[i] == rest[i - 1]);
                assert(rest[i - 1][j] != sep);
            }
        }
    }
}

/// Whether no part holds the separator.
pub open spec fn split_free(parts: Seq<Seq<char>>, sep: char) -> bool {
    forall|i: int, j: int|
        0 <= i < parts.len() && 0 <= j < parts[i].len() ==> #[trigger] parts[i][j] != sep
}

/// A trimmed text is a part of the text, and starts and ends with no white space.
pub proof fn lemma_trimmed(s: Seq<char>)
    ensures
        trimmed(s).len() > 0 ==> !white_space(trimmed(s)[0]) && !white_space(trimmed(s).last()),
        exists|k: int|
            0 <= k <= s.len() && k + trimmed(s).len() <= s.len() && trimmed(s)
                == #[trigger] s.subrange(k, k + trimmed(s).len()),
{
    let a = trim_start_white(s);
    lemma_trim_start(s);
    lemma_trim_end(a);
    let k = s.len() - a.len();
    assert(trimmed(s) =~= s.subrange(k, k + trimmed(s).len()));
}

proof fn lemma_trim_start(s: Seq<char>)
    ensures
        trim_start_white(s).len() <= s.len(),
        trim_start_white(s) == s.skip(s.len() - trim_start_white(s).len()),
        trim_start_white(s).len() > 0 ==> !white_space(trim_start_white(s)[0]),
    decreases s.len(),
{
    if s.len() > 0 && white_space(s[0]) {
        lemma_trim_start(s.skip(1));
        assert(trim_start_white(s) =~= s.skip(s.len() - trim_start_white(s).len()));
    } else {
        assert(s =~= s.skip(0));
    }
}

proof fn lemma_trim_end(s: Seq<char>)
    ensures
        trim_end_white(s).len() <= s.len(),
        trim_end_white(s) == s.take(trim_end_white(s).len() as int),
        trim_end_white(s).len() > 0 ==> !white_space(trim_end_white(s).last()),
    decreases s.len(),
{
    if s.len() > 0 && white_space(s.last()) {
        lemma_trim_end(s.drop_last());
        assert(trim_end_white(s) =~= s.take(trim_end_white(s).len() as int));
    } else {
        assert(s =~= s.take(s.len() as int));
    }
}

/// The number that a text of decimal digits stands for.
pub open spec fn digits_value(s: Seq<char>) -> int
    decreases s.len(),
{
    if s.len() == 0 {
        0
    } else {
        10 * digits_value(s.drop_last()) + (s.last() as int - '0' as int)
    }
}

/// A number in decimal is read back as the number. It consists of digits, and starts with a zero
/// only if it is zero.
pub proof fn law_decimal_reads_back(n: nat)
    ensures
        digits_value(decimal(n)) == n,
        forall|i: int| 0 <= i < decimal(n).len() ==> '0' <= #[trigger] decimal(n)[i] <= '9',
        decimal(n).len() > 0,
        decimal(n)[0] == '0' ==> n == 0,
    decreases n,
{
    let s = decimal(n);
    if n < 10 {
        assert(s.drop_last() =~= seq![]);
        assert(digits_value(seq![]) == 0);
    } else {
        law_decimal_reads_back(n / 10);
        assert(s.drop_last() =~= decimal(n / 10));
    }
}

/// Two numbers are never written the same.
pub proof fn law_decimal_injective(a: nat, b: nat)
    ensures
        decimal(a) == decimal(b) <==> a == b,
{
    law_decimal_reads_back(a);
    law_decimal_reads_back(b);
}

/// A joined list is its first part, the separator, and the rest joined, wherever it is parted.
pub proof fn law_join_parts(a: Seq<Seq<char>>, b: Seq<Seq<char>>, sep: Seq<char>)
    requires
        a.len() > 0,
        b.len() > 0,
    ensures
        join_with(a + b, sep) == join_with(a, sep) + sep + join_with(b, sep),
        a.len() == 1 ==> join_with(a, sep) == a[0],
    decreases b.len(),
{
    let all = a + b;
    assert(all.drop_last() =~= a + b.drop_last());
    if b.len() == 1 {
        assert(a + b.drop_last() =~= a);
    } else {
        law_join_parts(a, b.drop_last(), sep);
        assert(join_with(all, sep) =~= join_with(a, sep) + sep + join_with(b, sep));
    }
}

/// Joining undoes splitting, and no piece holds the separator.
pub proof fn law_split_joins_back(s: Seq<char>, sep: char)
    ensures
        join_with(split_on(s, sep), seq![sep]) == s,
        split_free(split_on(s, sep), sep),
        split_on(s, sep).len() > 0,
    decreases s.len(),
{
    lemma_split_pieces(s, sep);
    lemma_head_len_bound(s, sep);
    let n = head_len(s, sep) as int;
    if n < s.len() {
        let rest = s.skip(n + 1);
        law_split_joins_back(rest, sep);
        law_join_parts(seq![s.take(n)], split_on(rest, sep), seq![sep]);
        assert(s =~= s.take(n) + seq![sep] + rest);
    } else {
        assert(join_with(seq![s], seq![sep]) =~= s);
    }
}

/// What is dropped at the end of a text is all of the character, and all that there is of it.
pub proof fn law_trim_end(s: Seq<char>, c: char)
    ensures
        trim_end_char(s, c).len() <= s.len(),
        trim_end_char(s, c) == s.take(trim_end_char(s, c).len() as int),
        forall|i: int| trim_end_char(s, c).len() <= i < s.len() ==> #[trigger] s[i] == c,
        trim_end_char(s, c).len() > 0 ==> trim_end_char(s, c).last() != c,
    decreases s.len(),
{
    if s.len() > 0 && s.last() == c {
        let init = s.drop_last();
        law_trim_end(init, c);
        assert(trim_end_char(s, c) =~= s.take(trim_end_char(s, c).len() as int));
        assert forall|i: int| trim_end_char(s, c).len() <= i < s.len() implies #[trigger] s[i]
            == c by {
            if i < init.len() {
                assert(init[i] == c);
            }
        }
    } else {
        assert(s =~= s.take(s.len() as int));
    }
}

/// The parts kept of a list are those that hold a character, and no others.
pub proof fn law_non_empty_kept(parts: Seq<Seq<char>>)
    ensures
        non_empty_parts(parts) == parts.filter(|p: Seq<char>| p.len() > 0),
    decreases parts.len(),
{
    let keep = |p: Seq<char>| p.len() > 0;
    reveal(Seq::filter);
    if parts.len() > 0 {
        law_non_empty_kept(parts.drop_last());
    } else {
        assert(parts.filter(keep) =~= seq![]);
    }
}

/// White space at either end of a text is what trimming drops, all of it and nothing else.
pub proof fn law_trimmed_of_padded(a: Seq<char>, s: Seq<char>, z: Seq<char>)
    requires
        forall|i: int| 0 <= i < a.len() ==> white_space(#[trigger] a[i]),
        forall|i: int| 0 <= i < z.len() ==> white_space(#[trigger] z[i]),
        s.len() > 0 ==> !white_space(s[0]) && !white_space(s.last()),
    ensures
        trimmed(a + s + z) == s,
{
    if s.len() == 0 {
        let w = a + s + z;
        assert forall|i: int| 0 <= i < w.len() implies white_space(#[trigger] w[i]) by {
            if i < a.len() {
                assert(w[i] == a[i]);
            } else {
                assert(w[i] == z[i - a.len()]);
            }
        }
        assert(w + seq![] =~= w);
        lemma_start_padded(w, seq![]);
        assert(trim_start_white(w) =~= s);
    } else {
        assert(a + s + z =~= a + (s + z));
        lemma_start_padded(a, s + z);
        lemma_end_padded(s, z);
    }
}

proof fn lemma_start_padded(a: Seq<char>, s: Seq<char>)
    requires
        forall|i: int| 0 <= i < a.len() ==> white_space(#[trigger] a[i]),
        s.len() > 0 ==> !white_space(s[0]),
    ensures
        trim_start_white(a + s) == s,
    decreases a.len(),
{
    if a.len() > 0 {
        assert(white_space(a[0]));
        assert((a + s)[0] == a[0]);
        assert((a + s).skip(1) =~= a.skip(1) + s);
        assert forall|i: int| 0 <= i < a.skip(1).len() implies white_space(
            #[trigger] a.skip(1)[i],
        ) by {
            assert(white_space(a[i + 1]));
        }
        lemma_start_padded(a.skip(1), s);
    } else {
        assert(a + s =~= s);
    }
}

proof fn lemma_end_padded(s: Seq<char>, z: Seq<char>)
    requires
        forall|i: int| 0 <= i < z.len() ==> white_space(#[trigger] z[i]),
        s.len() > 0 ==> !white_space(s.last()),
    ensures
        trim_end_white(s + z) == s,
    decreases z.len(),
{
    if z.len() > 0 {
        assert(white_space(z[z.len() - 1]));
        assert((s + z).last() == z[z.len() - 1]);
        assert((s + z).drop_last() =~= s + z.drop_last());
        lemma_end_padded(s, z.drop_last());
    } else {
        assert(s + z =~= s);
    }
}

/// A text is what trimming leaves of it, with white space at either end.
pub proof fn law_trimmed_padding(s: Seq<char>) -> (r: (Seq<char>, Seq<char>))
    ensures
        s == r.0 + trimmed(s) + r.1,
        forall|i: int| 0 <= i < r.0.len() ==> white_space(#[trigger] r.0[i]),
        forall|i: int| 0 <= i < r.1.len() ==> white_space(#[trigger] r.1[i]),
{
    let t = trim_start_white(s);
    lemma_trim_start(s);
    lemma_trim_end(t);
    lemma_dropped_start(s);
    lemma_dropped_end(t);
    let a = s.take(s.len() - t.len());
    let z = t.skip(trim_end_white(t).len() as int);
    assert(s =~= a + trimmed(s) + z);
    (a, z)
}

proof fn lemma_dropped_start(s: Seq<char>)
    ensures
        forall|i: int|
            0 <= i < s.len() - trim_start_white(s).len() ==> white_space(#[trigger] s[i]),
    decreases s.len(),
{
    if s.len() > 0 && white_space(s[0]) {
        let rest = s.skip(1);
        lemma_dropped_start(rest);
        assert forall|i: int| 0 <= i < s.len() - trim_start_white(s).len() implies white_space(
            #[trigger] s[i],
        ) by {
            if i > 0 {
                assert(rest[i - 1] == s[i]);
            }
        }
    }
}

proof fn lemma_dropped_end(s: Seq<char>)
    ensures
        forall|i: int| trim_end_white(s).len() <= i < s.len() ==> white_space(#[trigger] s[i]),
    decreases s.len(),
{
    if s.len() > 0 && white_space(s.last()) {
        let init = s.drop_last();
        lemma_dropped_end(init);
        assert forall|i: int| trim_end_white(s).len() <= i < s.len() implies white_space(
            #[trigger] s[i],
        ) by {
            if i < init.len() {
                assert(init[i] == s[i]);
            }
        }
    }
}

} // verus!
