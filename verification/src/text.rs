//! Pieces of text: taking them apart, putting them together, writing numbers.

use vstd::prelude::*;
use vstd::string::*;
use vstd::utf8::{encode_utf8, encode_utf8_decode_utf8};

verus! {

/// What a list of strings reads.
pub open spec fn texts(list: Seq<String>) -> Seq<Seq<char>> {
    list.map_values(|s: String| s@)
}

/// The place of the first `x` in `s`, or the length of `s` if there is none.
pub open spec fn position<T>(s: Seq<T>, x: T) -> nat
    decreases s.len(),
{
    if s.len() == 0 || s[0] == x {
        0
    } else {
        1 + position(s.drop_first(), x)
    }
}

/// `position` finds the first place, and only what is there.
pub proof fn lemma_position<T>(s: Seq<T>, x: T)
    ensures
        position(s, x) <= s.len(),
        position(s, x) < s.len() <==> s.contains(x),
        position(s, x) < s.len() ==> s[position(s, x) as int] == x,
        forall|i: int| 0 <= i < position(s, x) ==> s[i] != x,
    decreases s.len(),
{
    if s.len() == 0 {
    } else if s[0] == x {
        assert(s.contains(x));
    } else {
        let rest = s.drop_first();
        lemma_position(rest, x);
        if rest.contains(x) {
            let i = rest.index_of(x);
            assert(s[i + 1] == x);
        }
        if s.contains(x) {
            let i = s.index_of(x);
            assert(rest[i - 1] == x);
        }
        assert forall|i: int| 0 <= i < position(s, x) implies s[i] != x by {
            if i > 0 {
                assert(rest[i - 1] == s[i]);
            }
        }
    }
}

/// A place where `x` stands with none before it is its position.
pub proof fn lemma_position_is<T>(s: Seq<T>, x: T, i: int)
    requires
        0 <= i <= s.len(),
        i < s.len() ==> s[i] == x,
        forall|j: int| 0 <= j < i ==> s[j] != x,
    ensures
        position(s, x) == i,
{
    lemma_position(s, x);
    if position(s, x) < i {
        assert(s[position(s, x) as int] == x);
    } else if i < position(s, x) {
        assert(s[i] == x);
    }
}

/// True if the two strings read the same.
pub fn same_text(a: &str, b: &str) -> (same: bool)
    ensures
        same == (a@ == b@),
{
    let x = a.as_bytes();
    let y = b.as_bytes();
    proof {
        encode_utf8_decode_utf8(a@);
        encode_utf8_decode_utf8(b@);
    }
    if x.len() != y.len() {
        return false;
    }
    let n: usize = x.len();
    for i in 0..n
        invariant
            n == x@.len(),
            n == y@.len(),
            x@ == encode_utf8(a@),
            y@ == encode_utf8(b@),
            forall|j: int| 0 <= j < i ==> x@[j] == y@[j],
    {
        if x[i] != y[i] {
            return false;
        }
    }
    assert(x@ =~= y@);
    true
}

/// The characters with the Unicode property White_Space.
pub open spec fn whitespace(c: char) -> bool {
    ||| '\u{9}' <= c <= '\u{d}'
    ||| c == '\u{20}'
    ||| c == '\u{85}'
    ||| c == '\u{a0}'
    ||| c == '\u{1680}'
    ||| '\u{2000}' <= c <= '\u{200a}'
    ||| '\u{2028}' <= c <= '\u{2029}'
    ||| c == '\u{202f}'
    ||| c == '\u{205f}'
    ||| c == '\u{3000}'
}

fn is_whitespace(c: char) -> (w: bool)
    ensures
        w == whitespace(c),
{
    ('\u{9}' <= c && c <= '\u{d}') || c == '\u{20}' || c == '\u{85}' || c == '\u{a0}' || c
        == '\u{1680}' || ('\u{2000}' <= c && c <= '\u{200a}') || ('\u{2028}' <= c && c
        <= '\u{2029}') || c == '\u{202f}' || c == '\u{205f}' || c == '\u{3000}'
}

/// `s` without the whitespace that it starts with.
pub open spec fn trim_start(s: Seq<char>) -> Seq<char>
    decreases s.len(),
{
    if s.len() > 0 && whitespace(s[0]) {
        trim_start(s.drop_first())
    } else {
        s
    }
}

/// `s` without the whitespace that it ends with.
pub open spec fn trim_end(s: Seq<char>) -> Seq<char>
    decreases s.len(),
{
    if s.len() > 0 && whitespace(s.last()) {
        trim_end(s.drop_last())
    } else {
        s
    }
}

/// `s` without whitespace around it.
pub open spec fn trimmed(s: Seq<char>) -> Seq<char> {
    trim_end(trim_start(s))
}

/// `s` without whitespace around it.
pub fn trim(s: &str) -> (t: &str)
    ensures
        t@ == trimmed(s@),
{
    let n: usize = s.unicode_len();
    let mut from: usize = 0;
    assert(s@.skip(0) =~= s@);
    while from < n && is_whitespace(s.get_char(from))
        invariant
            n == s@.len(),
            from <= n,
            trim_start(s@.skip(from as int)) == trim_start(s@),
        decreases n - from,
    {
        assert(s@.skip(from as int).drop_first() =~= s@.skip(from + 1));
        from = from + 1;
    }
    assert(trim_start(s@) == s@.skip(from as int));
    let mut to: usize = n;
    assert(s@.subrange(from as int, n as int) =~= s@.skip(from as int));
    while to > from && is_whitespace(s.get_char(to - 1))
        invariant
            n == s@.len(),
            from <= to <= n,
            trim_end(s@.subrange(from as int, to as int)) == trimmed(s@),
        decreases to,
    {
        assert(s@.subrange(from as int, to as int).drop_last() =~= s@.subrange(
            from as int,
            to - 1,
        ));
        to = to - 1;
    }
    s.substring_char(from, to)
}

/// The parts of `s` between the separators.
pub open spec fn split(s: Seq<char>, sep: char) -> Seq<Seq<char>>
    decreases s.len(),
{
    let i = position(s, sep) as int;
    if 0 <= i < s.len() {
        seq![s.take(i)] + split(s.skip(i + 1), sep)
    } else {
        seq![s]
    }
}

/// `s` without the `c`s that it ends with.
pub open spec fn without_trailing(s: Seq<char>, c: char) -> Seq<char>
    decreases s.len(),
{
    if s.len() > 0 && s.last() == c {
        without_trailing(s.drop_last(), c)
    } else {
        s
    }
}

/// What stands in `s` behind the last `c`: all of `s` if there is none.
pub open spec fn after_last<T>(s: Seq<T>, c: T) -> Seq<T>
    decreases s.len(),
{
    if s.len() == 0 || s.last() == c {
        Seq::empty()
    } else {
        after_last(s.drop_last(), c).push(s.last())
    }
}

/// The last part of a path: what stands behind the last `c` once the `c`s at
/// the end are gone.
pub fn last_part(s: &str, c: char) -> (t: &str)
    ensures
        t@ == after_last(without_trailing(s@, c), c),
{
    let n: usize = s.unicode_len();
    let mut to: usize = n;
    assert(s@.take(n as int) =~= s@);
    while to > 0 && s.get_char(to - 1) == c
        invariant
            n == s@.len(),
            to <= n,
            without_trailing(s@.take(to as int), c) == without_trailing(s@, c),
        decreases to,
    {
        assert(s@.take(to as int).drop_last() =~= s@.take(to - 1));
        to = to - 1;
    }
    let ghost kept = s@.take(to as int);
    assert(without_trailing(s@, c) == kept);
    let mut from: usize = to;
    assert(kept.take(to as int) =~= kept);
    assert(kept.subrange(to as int, to as int) =~= Seq::empty());
    assert(after_last(kept, c) =~= after_last(kept.take(from as int), c) + kept.subrange(
        from as int,
        to as int,
    ));
    while from > 0 && s.get_char(from - 1) != c
        invariant
            n == s@.len(),
            from <= to <= n,
            kept == s@.take(to as int),
            after_last(kept, c) == after_last(kept.take(from as int), c) + kept.subrange(
                from as int,
                to as int,
            ),
        decreases from,
    {
        assert(kept.take(from as int).drop_last() =~= kept.take(from - 1));
        assert(kept.take(from as int).last() == s@[from - 1]);
        assert(after_last(kept.take(from - 1), c).push(s@[from - 1]) + kept.subrange(
            from as int,
            to as int,
        ) =~= after_last(kept.take(from - 1), c) + kept.subrange(from - 1, to as int));
        from = from - 1;
    }
    assert(after_last(kept.take(from as int), c) =~= Seq::empty());
    assert(after_last(kept, c) =~= s@.subrange(from as int, to as int));
    s.substring_char(from, to)
}

/// The digit of a number below sixteen.
pub open spec fn digit(n: int) -> char {
    "0123456789abcdef"@[n]
}

fn digit_text(n: u8) -> (s: &'static str)
    requires
        n < 16,
    ensures
        s@ == seq![digit(n as int)],
{
    let all: &'static str = "0123456789abcdef";
    proof {
        reveal_strlit("0123456789abcdef");
    }
    let i: usize = n as usize;
    let s = all.substring_char(i, i + 1);
    assert(s@ =~= seq![digit(n as int)]);
    s
}

/// `n` in decimal.
pub open spec fn decimal(n: nat) -> Seq<char>
    decreases n,
{
    if n < 10 {
        seq![digit(n as int)]
    } else {
        decimal(n / 10).push(digit((n % 10) as int))
    }
}

/// `n` in decimal.
pub fn decimal_text(n: u64) -> (s: String)
    ensures
        s@ == decimal(n as nat),
    decreases n,
{
    if n < 10 {
        digit_text(n as u8).to_string()
    } else {
        let mut s = decimal_text(n / 10);
        s.append(digit_text((n % 10) as u8));
        assert(s@ =~= decimal(n as nat));
        s
    }
}

/// `n` in decimal, with a zero in front if it is a single digit.
pub open spec fn two_digits(n: nat) -> Seq<char> {
    if n < 10 {
        seq!['0'] + decimal(n)
    } else {
        decimal(n)
    }
}

/// `n` in decimal, with a zero in front if it is a single digit.
pub fn two_digits_text(n: u64) -> (s: String)
    ensures
        s@ == two_digits(n as nat),
{
    if n < 10 {
        let zero = "0".to_string();
        proof {
            reveal_strlit("0");
        }
        assert(zero@ =~= seq!['0']);
        zero.concat(decimal_text(n).as_str())
    } else {
        decimal_text(n)
    }
}

/// The lowest `len` hexadecimal digits of `n`.
pub open spec fn hex(n: nat, len: nat) -> Seq<char>
    decreases len,
{
    if len == 0 {
        Seq::empty()
    } else {
        hex(n / 16, (len - 1) as nat).push(digit((n % 16) as int))
    }
}

/// The lowest `len` hexadecimal digits of `n`.
pub fn hex_text(n: u64, len: usize) -> (s: String)
    ensures
        s@ == hex(n as nat, len as nat),
    decreases len,
{
    if len == 0 {
        String::new()
    } else {
        let mut s = hex_text(n / 16, len - 1);
        s.append(digit_text((n % 16) as u8));
        assert(s@ =~= hex(n as nat, len as nat));
        s
    }
}

/// The parts, with `sep` between them.
pub open spec fn joined(parts: Seq<Seq<char>>, sep: Seq<char>) -> Seq<char>
    decreases parts.len(),
{
    if parts.len() == 0 {
        Seq::empty()
    } else if parts.len() == 1 {
        parts[0]
    } else {
        joined(parts.drop_last(), sep) + sep + parts.last()
    }
}

/// The first `n` parts, with `sep` between them.
pub fn join_first(parts: &Vec<String>, n: usize, sep: &str) -> (s: String)
    requires
        n <= parts@.len(),
    ensures
        s@ == joined(texts(parts@).take(n as int), sep@),
{
    let mut s = String::new();
    assert(texts(parts@).take(0) =~= Seq::empty());
    for i in 0..n
        invariant
            n <= parts@.len(),
            s@ == joined(texts(parts@).take(i as int), sep@),
    {
        let ghost shorter = texts(parts@).take(i as int);
        let ghost longer = texts(parts@).take(i + 1);
        assert(longer.drop_last() =~= shorter);
        if i > 0 {
            s.append(sep);
        } else {
            assert(shorter.len() == 0);
        }
        s.append(parts[i].as_str());
        assert(s@ =~= joined(longer, sep@));
    }
    s
}

/// All parts, with `sep` between them.
pub fn join(parts: &Vec<String>, sep: &str) -> (s: String)
    ensures
        s@ == joined(texts(parts@), sep@),
{
    assert(texts(parts@).take(parts@.len() as int) =~= texts(parts@));
    join_first(parts, parts.len(), sep)
}

/// A copy of a list of strings.
pub fn copy_texts(list: &Vec<String>) -> (copy: Vec<String>)
    ensures
        copy@ == list@,
{
    let mut copy: Vec<String> = Vec::new();
    for i in 0..list.len()
        invariant
            copy@ == list@.take(i as int),
    {
        copy.push(list[i].clone());
        assert(copy@ =~= list@.take(i + 1));
    }
    assert(copy@ =~= list@);
    copy
}

/// True if `word` is one of `list`.
pub fn is_listed(list: &Vec<String>, word: &str) -> (found: bool)
    ensures
        found == texts(list@).contains(word@),
{
    for i in 0..list.len()
        invariant
            forall|j: int| 0 <= j < i ==> texts(list@)[j] != word@,
    {
        if same_text(list[i].as_str(), word) {
            assert(texts(list@)[i as int] == word@);
            return true;
        }
    }
    false
}

/// The lower-case form of a text, as Unicode maps it.
pub uninterp spec fn lowercase(s: Seq<char>) -> Seq<char>;

/// `str::to_lowercase`. What it returns depends on the text alone; which
/// character maps to which is left to Unicode.
#[verifier::external_body]
pub(crate) fn to_lowercase(s: &str) -> (t: String)
    ensures
        t@ == lowercase(s@),
{
    s.to_lowercase()
}

/// A text in quotes, with the escapes of a Rust string literal.
pub uninterp spec fn quoted(s: Seq<char>) -> Seq<char>;

/// The `Debug` form of a string. What it returns depends on the text alone;
/// which characters it escapes is left to the standard library.
#[verifier::external_body]
pub(crate) fn quote(s: &str) -> (t: String)
    ensures
        t@ == quoted(s@),
{
    format!("{:?}", s)
}

/// A list of strings reads what each of them reads, in their order.
pub proof fn law_texts_read_each_string(list: Seq<String>)
    ensures
        texts(list).len() == list.len(),
        forall|i: int| 0 <= i < list.len() ==> #[trigger] texts(list)[i] == list[i]@,
{
}

/// Whitespace is these characters and no others.
pub proof fn law_whitespace_characters(c: char)
    ensures
        whitespace(c) <==> (c as u32 == 9 || c as u32 == 10 || c as u32 == 11 || c as u32 == 12
            || c as u32 == 13 || c as u32 == 32 || c as u32 == 133 || c as u32 == 160 || c as u32
            == 5760 || 8192 <= c as u32 <= 8202 || c as u32 == 8232 || c as u32 == 8233 || c as u32
            == 8239 || c as u32 == 8287 || c as u32 == 12288),
{
}

/// Trimming takes whitespace away at both ends, all of it and nothing else.
pub proof fn law_trimming_takes_whitespace_at_the_ends(s: Seq<char>)
    ensures
        exists|i: int, j: int|
            #![trigger s.subrange(i, j)]
            0 <= i <= j <= s.len() && trimmed(s) == s.subrange(i, j) && (forall|x: int|
                0 <= x < i || j <= x < s.len() ==> whitespace(#[trigger] s[x])),
        trimmed(s).len() > 0 ==> !whitespace(trimmed(s)[0]) && !whitespace(trimmed(s).last()),
{
    let i = lemma_trim_start(s);
    let rest = s.skip(i);
    let n = lemma_trim_end(rest);
    assert(trimmed(s) =~= s.subrange(i, i + n));
    assert forall|x: int| 0 <= x < i || i + n <= x < s.len() implies whitespace(
        #[trigger] s[x],
    ) by {
        if x >= i {
            assert(s[x] == rest[x - i]);
        }
    }
    if n > 0 {
        assert(trimmed(s)[0] == rest[0]);
    }
}

proof fn lemma_trim_start(s: Seq<char>) -> (i: int)
    ensures
        0 <= i <= s.len(),
        trim_start(s) == s.skip(i),
        forall|x: int| 0 <= x < i ==> whitespace(#[trigger] s[x]),
        i < s.len() ==> !whitespace(s[i]),
    decreases s.len(),
{
    if s.len() > 0 && whitespace(s[0]) {
        let rest = s.drop_first();
        let i = lemma_trim_start(rest);
        assert(rest.skip(i) =~= s.skip(i + 1));
        assert forall|x: int| 0 <= x < i + 1 implies whitespace(#[trigger] s[x]) by {
            if x > 0 {
                assert(whitespace(rest[x - 1]));
            }
        }
        i + 1
    } else {
        assert(s.skip(0) =~= s);
        0
    }
}

proof fn lemma_trim_end(s: Seq<char>) -> (n: int)
    ensures
        0 <= n <= s.len(),
        trim_end(s) == s.take(n),
        forall|x: int| n <= x < s.len() ==> whitespace(#[trigger] s[x]),
        n > 0 ==> !whitespace(s[n - 1]),
    decreases s.len(),
{
    if s.len() > 0 && whitespace(s.last()) {
        let rest = s.drop_last();
        let n = lemma_trim_end(rest);
        assert(rest.take(n) =~= s.take(n));
        assert forall|x: int| n <= x < s.len() implies whitespace(#[trigger] s[x]) by {
            if x < rest.len() {
                assert(whitespace(rest[x]));
            }
        }
        n
    } else {
        assert(s.take(s.len() as int) =~= s);
        s.len() as int
    }
}

/// Joining puts the separator between the parts and nowhere else.
pub proof fn law_joining_puts_the_separator_between(
    a: Seq<Seq<char>>,
    b: Seq<Seq<char>>,
    part: Seq<char>,
    sep: Seq<char>,
)
    requires
        a.len() > 0,
        b.len() > 0,
    ensures
        joined(Seq::empty(), sep).len() == 0,
        joined(seq![part], sep) == part,
        joined(a + b, sep) == joined(a, sep) + sep + joined(b, sep),
    decreases b.len(),
{
    let all = a + b;
    if b.len() == 1 {
        assert(all.drop_last() =~= a);
    } else {
        let shorter = b.drop_last();
        law_joining_puts_the_separator_between(a, shorter, part, sep);
        assert(all.drop_last() =~= a + shorter);
        assert(joined(all, sep) =~= joined(a, sep) + sep + joined(b, sep));
    }
}

/// Splitting undoes joining: the parts hold no separator, and with separators
/// between them they are the text again.
pub proof fn law_split_parts_make_the_text(s: Seq<char>, sep: char)
    ensures
        split(s, sep).len() > 0,
        joined(split(s, sep), seq![sep]) == s,
        forall|i: int| 0 <= i < split(s, sep).len() ==> !(#[trigger] split(s, sep)[i]).contains(sep),
    decreases s.len(),
{
    lemma_position(s, sep);
    let i = position(s, sep) as int;
    let parts = split(s, sep);
    if i < s.len() {
        let head = s.take(i);
        let rest = s.skip(i + 1);
        law_split_parts_make_the_text(rest, sep);
        law_joining_puts_the_separator_between(seq![head], split(rest, sep), head, seq![sep]);
        assert(s =~= head + seq![sep] + rest);
        assert forall|x: int| 0 <= x < parts.len() implies !(#[trigger] parts[x]).contains(sep) by {
            if x > 0 {
                assert(parts[x] == split(rest, sep)[x - 1]);
            } else if head.contains(sep) {
                let y = head.index_of(sep);
                assert(s[y] == sep);
            }
        }
    }
}

/// Without the `c`s at its end a text is what comes before them.
pub proof fn law_trailing_characters_go(s: Seq<char>, c: char)
    ensures
        ({
            let t = without_trailing(s, c);
            &&& t.len() <= s.len()
            &&& t == s.take(t.len() as int)
            &&& forall|i: int| t.len() <= i < s.len() ==> #[trigger] s[i] == c
            &&& t.len() > 0 ==> t.last() != c
        }),
    decreases s.len(),
{
    if s.len() > 0 && s.last() == c {
        let rest = s.drop_last();
        law_trailing_characters_go(rest, c);
        let t = without_trailing(s, c);
        assert(t =~= s.take(t.len() as int));
        assert forall|i: int| t.len() <= i < s.len() implies #[trigger] s[i] == c by {
            if i < rest.len() {
                assert(rest[i] == s[i]);
            }
        }
    } else {
        assert(s =~= s.take(s.len() as int));
    }
}

/// What comes behind the last `c` reaches to the end, holds no `c`, and starts
/// at the start or right behind a `c`.
pub proof fn law_what_comes_last_is_behind_a_separator<T>(s: Seq<T>, c: T)
    ensures
        ({
            let t = after_last(s, c);
            &&& t.len() <= s.len()
            &&& t == s.skip(s.len() - t.len())
            &&& !t.contains(c)
            &&& t.len() < s.len() ==> s[s.len() - t.len() - 1] == c
        }),
    decreases s.len(),
{
    let t = after_last(s, c);
    if s.len() == 0 || s.last() == c {
        assert(t =~= s.skip(s.len() as int));
    } else {
        let rest = s.drop_last();
        law_what_comes_last_is_behind_a_separator(rest, c);
        let u = after_last(rest, c);
        assert(t =~= s.skip(s.len() - t.len()));
        if t.contains(c) {
            let i = t.index_of(c);
            assert(u[i] == c);
        }
        if t.len() < s.len() {
            assert(rest[rest.len() - u.len() - 1] == c);
        }
    }
}

/// What a digit is worth; sixteen for anything else.
pub open spec fn worth(c: char) -> nat {
    if '0' <= c <= '9' {
        (c as int - 48) as nat
    } else if 'a' <= c <= 'f' {
        (c as int - 87) as nat
    } else {
        16
    }
}

/// The number that digits stand for in some base.
pub open spec fn number_in(s: Seq<char>, base: nat) -> nat
    decreases s.len(),
{
    if s.len() == 0 {
        0
    } else {
        number_in(s.drop_last(), base) * base + worth(s.last())
    }
}

/// Every digit is worth its number.
proof fn lemma_digit(d: int)
    requires
        0 <= d < 16,
    ensures
        worth(digit(d)) == d,
        d < 10 ==> '0' <= digit(d) <= '9',
        d != 0 ==> digit(d) != '0',
{
    reveal_strlit("0123456789abcdef");
}

/// A number in decimal reads back as that number, and does not start with a
/// zero unless it is one.
pub proof fn law_decimal_reads_back(n: nat)
    ensures
        number_in(decimal(n), 10) == n,
        decimal(n).len() > 0,
        n > 0 ==> decimal(n)[0] != '0',
        n < 10 ==> decimal(n).len() == 1,
        forall|i: int| 0 <= i < decimal(n).len() ==> '0' <= #[trigger] decimal(n)[i] <= '9',
    decreases n,
{
    let s = decimal(n);
    reveal_with_fuel(number_in, 2);
    if n < 10 {
        lemma_digit(n as int);
        assert(s.drop_last().len() == 0);
    } else {
        law_decimal_reads_back(n / 10);
        lemma_digit((n % 10) as int);
        assert(s.drop_last() =~= decimal(n / 10));
        assert forall|i: int| 0 <= i < s.len() implies '0' <= #[trigger] s[i] <= '9' by {
            if i < s.len() - 1 {
                assert(s[i] == decimal(n / 10)[i]);
            }
        }
        assert(s[0] == decimal(n / 10)[0]);
    }
}

/// A number below a hundred is written with two digits and reads back.
pub proof fn law_two_digits_read_back(n: nat)
    requires
        n < 100,
    ensures
        two_digits(n).len() == 2,
        number_in(two_digits(n), 10) == n,
{
    law_decimal_reads_back(n);
    reveal_with_fuel(decimal, 2);
    reveal_with_fuel(number_in, 3);
    if n < 10 {
        lemma_digit(n as int);
        assert(two_digits(n).drop_last() =~= seq!['0']);
        assert(seq!['0'].drop_last().len() == 0);
    }
}

/// The number of numbers with so many hexadecimal digits.
pub open spec fn sixteen_to(len: nat) -> nat
    decreases len,
{
    if len == 0 {
        1
    } else {
        16 * sixteen_to((len - 1) as nat)
    }
}

/// A number with enough hexadecimal digits reads back as that number.
pub proof fn law_hexadecimal_reads_back(n: nat, len: nat)
    requires
        n < sixteen_to(len),
    ensures
        hex(n, len).len() == len,
        number_in(hex(n, len), 16) == n,
    decreases len,
{
    if len > 0 {
        law_hexadecimal_reads_back(n / 16, (len - 1) as nat);
        lemma_digit((n % 16) as int);
        assert(hex(n, len).drop_last() =~= hex(n / 16, (len - 1) as nat));
    }
}

} // verus!
