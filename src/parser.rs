use crate::text::{string_from, unescape, unescaped};
use crate::lookup::{first_pos, insert_entry, keys_of_entries, lemma_first_pos};
use crate::script::{
    characters_view, chapters_view, configs_view, items_view, scenes_view, ActionModel, FileModel,
    ItemModel, VnAction, VnChapter, VnChapterItem, VnCharacter, VnConfig, VnFile, VnScene, VnStory,
};
use crate::value::{
    entries_view, lemma_array_view, lemma_dict_view, values_view, Decimal, ValueModel, VnValue,
    MAX_SCALE,
};
use vstd::prelude::*;

verus! {

// Lexical structure.
pub open spec fn is_space(c: char) -> bool {
    c == ' ' || c == '\t' || c == '\n' || c == '\r'
}

pub open spec fn is_letter(c: char) -> bool {
    ('a' as u32 <= c as u32 <= 'z' as u32) || ('A' as u32 <= c as u32 <= 'Z' as u32) || c == '_'
}

pub open spec fn is_digit(c: char) -> bool {
    '0' as u32 <= c as u32 <= '9' as u32
}

pub open spec fn is_word_char(c: char) -> bool {
    is_letter(c) || is_digit(c)
}

pub open spec fn digit_value(c: char) -> int {
    c as u32 - '0' as u32
}

pub open spec fn is_hex(c: char) -> bool {
    is_digit(c) || ('a' as u32 <= c as u32 <= 'f' as u32) || ('A' as u32 <= c as u32 <= 'F' as u32)
}

pub open spec fn hex_digit_value(c: char) -> int {
    if is_digit(c) {
        c as u32 - '0' as u32
    } else if 'a' as u32 <= c as u32 <= 'f' as u32 {
        c as u32 - 'a' as u32 + 10
    } else {
        c as u32 - 'A' as u32 + 10
    }
}

/// The number written by a run of decimal digits.
pub open spec fn digits_value(ds: Seq<char>) -> int
    decreases ds.len(),
{
    if ds.len() == 0 {
        0
    } else {
        10 * digits_value(ds.drop_last()) + digit_value(ds.last())
    }
}

/// The number written by a run of hexadecimal digits.
pub open spec fn hex_value(ds: Seq<char>) -> int
    decreases ds.len(),
{
    if ds.len() == 0 {
        0
    } else {
        16 * hex_value(ds.drop_last()) + hex_digit_value(ds.last())
    }
}

/// The end of the line that starts at `i`.
pub open spec fn line_end(s: Seq<char>, i: int) -> int
    decreases s.len() - i,
{
    if i < 0 || i >= s.len() || s[i] == '\n' {
        i
    } else {
        line_end(s, i + 1)
    }
}

/// The first position from `i` on that is neither white space nor in a `//` comment.
pub open spec fn skip_space(s: Seq<char>, i: int) -> int
    decreases s.len() - i,
{
    if i < 0 || i >= s.len() {
        i
    } else if is_space(s[i]) {
        skip_space(s, i + 1)
    } else if s[i] == '/' && i + 1 < s.len() && s[i + 1] == '/' {
        let e = line_end(s, i + 2);
        if i < e <= s.len() {
            skip_space(s, e)
        } else {
            i
        }
    } else {
        i
    }
}

/// The end of the run of characters satisfying `is_word_char` from `i` on.
pub open spec fn word_end(s: Seq<char>, i: int) -> int
    decreases s.len() - i,
{
    if 0 <= i < s.len() && is_word_char(s[i]) {
        word_end(s, i + 1)
    } else {
        i
    }
}

/// The end of the identifier at `i`: a letter or `_`, then letters, digits and `_`.
pub open spec fn ident_at(s: Seq<char>, i: int) -> Option<int> {
    if 0 <= i < s.len() && is_letter(s[i]) {
        Some(word_end(s, i + 1))
    } else {
        None
    }
}

/// The end of the run of decimal digits from `i` on.
pub open spec fn digits_end(s: Seq<char>, i: int) -> int
    decreases s.len() - i,
{
    if 0 <= i < s.len() && is_digit(s[i]) {
        digits_end(s, i + 1)
    } else {
        i
    }
}

/// The end of a string literal whose body starts at `i`: after its closing quote.
pub open spec fn text_close(s: Seq<char>, i: int) -> Option<int>
    decreases s.len() - i,
{
    if i < 0 || i >= s.len() {
        None
    } else if s[i] == '"' {
        Some(i + 1)
    } else if s[i] == '\\' {
        if i + 1 < s.len() {
            text_close(s, i + 2)
        } else {
            None
        }
    } else {
        text_close(s, i + 1)
    }
}

pub open spec fn max_mantissa() -> int {
    0x7fff_ffff_ffff_ffff
}

/// A number literal at `i`: an optional `-`, digits, and optionally `.` and digits. Numbers
/// are held exactly as decimals, so a literal is refused (a syntax error) when it has more
/// than `MAX_SCALE` digits after the point or when its digits, read as one integer, pass
/// `i64::MAX`.
pub open spec fn number_at(s: Seq<char>, i: int) -> Option<(ValueModel, int)> {
    let neg = 0 <= i < s.len() && s[i] == '-';
    let a = if neg {
        i + 1
    } else {
        i
    };
    let b = digits_end(s, a);
    let has_fraction = b + 1 < s.len() && s[b] == '.' && is_digit(s[b + 1]);
    let c = if has_fraction {
        digits_end(s, b + 1)
    } else {
        b
    };
    let frac = if has_fraction {
        s.subrange(b + 1, c)
    } else {
        Seq::empty()
    };
    let magnitude = digits_value(s.subrange(a, b) + frac);
    if b == a || frac.len() > MAX_SCALE || magnitude > max_mantissa() {
        None
    } else {
        Some(
            (
                ValueModel::Number(
                    Decimal::of(
                        if neg {
                            -magnitude
                        } else {
                            magnitude
                        },
                        frac.len(),
                    ),
                ),
                c,
            ),
        )
    }
}

/// A color literal at `i`: `#` and eight hexadecimal digits.
pub open spec fn color_at(s: Seq<char>, i: int) -> Option<(ValueModel, int)> {
    if 0 <= i && i + 9 <= s.len() && s[i] == '#' && forall|k: int|
        i + 1 <= k < i + 9 ==> is_hex(#[trigger] s[k]) {
        Some((ValueModel::Color(hex_value(s.subrange(i + 1, i + 9)) as u32), i + 9))
    } else {
        None
    }
}

/// A string literal at `i`, unescaped.
pub open spec fn text_at(s: Seq<char>, i: int) -> Option<(Seq<char>, int)> {
    if 0 <= i < s.len() && s[i] == '"' {
        match text_close(s, i + 1) {
            Some(e) => match unescaped(s.subrange(i, e)) {
                Some(t) => Some((t, e)),
                None => None,
            },
            None => None,
        }
    } else {
        None
    }
}

/// A bare word used as a value: `none`, `true`, `false`, or else the word as text.
pub open spec fn word_value(w: Seq<char>) -> ValueModel {
    if w == seq!['n', 'o', 'n', 'e'] {
        ValueModel::Null
    } else if w == seq!['t', 'r', 'u', 'e'] {
        ValueModel::Boolean(true)
    } else if w == seq!['f', 'a', 'l', 's', 'e'] {
        ValueModel::Boolean(false)
    } else {
        ValueModel::Text(w)
    }
}

fn is_space_x(c: char) -> (r: bool)
    ensures
        r == is_space(c),
{
    c == ' ' || c == '\t' || c == '\n' || c == '\r'
}

fn is_letter_x(c: char) -> (r: bool)
    ensures
        r == is_letter(c),
{
    ('a' <= c && c <= 'z') || ('A' <= c && c <= 'Z') || c == '_'
}

fn is_digit_x(c: char) -> (r: bool)
    ensures
        r == is_digit(c),
{
    '0' <= c && c <= '9'
}

fn is_hex_x(c: char) -> (r: bool)
    ensures
        r == is_hex(c),
{
    ('0' <= c && c <= '9') || ('a' <= c && c <= 'f') || ('A' <= c && c <= 'F')
}

fn line_end_x(s: &Vec<char>, i: usize) -> (r: usize)
    requires
        i <= s.len(),
    ensures
        r == line_end(s@, i as int),
        i <= r <= s.len(),
{
    let mut k = i;
    while k < s.len() && s[k] != '\n'
        invariant
            i <= k <= s.len(),
            line_end(s@, i as int) == line_end(s@, k as int),
        decreases s.len() - k,
    {
        k = k + 1;
    }
    k
}

fn skip_space_x(s: &Vec<char>, i: usize) -> (r: usize)
    requires
        i <= s.len(),
    ensures
        r == skip_space(s@, i as int),
        i <= r <= s.len(),
{
    let mut k = i;
    loop
        invariant
            i <= k <= s.len(),
            skip_space(s@, i as int) == skip_space(s@, k as int),
        ensures
            k == skip_space(s@, i as int),
        decreases s.len() - k,
    {
        if k < s.len() && is_space_x(s[k]) {
            k = k + 1;
        } else if k < s.len() && s[k] == '/' && s.len() - k > 1 && s[k + 1] == '/' {
            k = line_end_x(s, k + 2);
        } else {
            return k;
        }
    }
}

fn word_end_x(s: &Vec<char>, i: usize) -> (r: usize)
    requires
        i <= s.len(),
    ensures
        r == word_end(s@, i as int),
        i <= r <= s.len(),
{
    let mut k = i;
    while k < s.len() && (is_letter_x(s[k]) || is_digit_x(s[k]))
        invariant
            i <= k <= s.len(),
            word_end(s@, i as int) == word_end(s@, k as int),
        decreases s.len() - k,
    {
        k = k + 1;
    }
    k
}

fn ident_x(s: &Vec<char>, i: usize) -> (r: Option<usize>)
    requires
        i <= s.len(),
    ensures
        r is Some <==> ident_at(s@, i as int) is Some,
        r matches Some(e) ==> ident_at(s@, i as int) == Some(e as int) && i < e <= s.len(),
{
    if i < s.len() && is_letter_x(s[i]) {
        Some(word_end_x(s, i + 1))
    } else {
        None
    }
}

fn digits_end_x(s: &Vec<char>, i: usize) -> (r: usize)
    requires
        i <= s.len(),
    ensures
        r == digits_end(s@, i as int),
        i <= r <= s.len(),
        forall|k: int| i <= k < r ==> is_digit(#[trigger] s@[k]),
{
    let mut k = i;
    while k < s.len() && is_digit_x(s[k])
        invariant
            i <= k <= s.len(),
            digits_end(s@, i as int) == digits_end(s@, k as int),
            forall|m: int| i <= m < k ==> is_digit(#[trigger] s@[m]),
        decreases s.len() - k,
    {
        k = k + 1;
    }
    k
}

fn text_close_x(s: &Vec<char>, i: usize) -> (r: Option<usize>)
    requires
        i <= s.len(),
    ensures
        r is Some <==> text_close(s@, i as int) is Some,
        r matches Some(e) ==> text_close(s@, i as int) == Some(e as int) && i < e <= s.len(),
{
    let mut k = i;
    while k < s.len()
        invariant
            i <= k <= s.len() + 1,
            text_close(s@, i as int) == text_close(s@, k as int),
        decreases s.len() - k,
    {
        if s[k] == '"' {
            return Some(k + 1);
        } else if s[k] == '\\' {
            if k + 1 < s.len() {
                k = k + 2;
            } else {
                return None;
            }
        } else {
            k = k + 1;
        }
    }
    None
}

proof fn lemma_digits_grow(ds: Seq<char>, k: int)
    requires
        0 <= k <= ds.len(),
        forall|m: int| 0 <= m < ds.len() ==> is_digit(#[trigger] ds[m]),
    ensures
        0 <= digits_value(ds.take(k)) <= digits_value(ds),
    decreases ds.len(),
{
    if k == ds.len() {
        assert(ds.take(k) =~= ds);
        lemma_digits_nonneg(ds);
    } else {
        assert(ds.drop_last().take(k) =~= ds.take(k));
        lemma_digits_grow(ds.drop_last(), k);
    }
}

proof fn lemma_digits_nonneg(ds: Seq<char>)
    requires
        forall|m: int| 0 <= m < ds.len() ==> is_digit(#[trigger] ds[m]),
    ensures
        0 <= digits_value(ds),
    decreases ds.len(),
{
    if ds.len() > 0 {
        lemma_digits_nonneg(ds.drop_last());
    }
}

/// Adds the digits `s[from..to]` to `acc`, the value of the digits `done` read so far.
fn add_digits(s: &Vec<char>, from: usize, to: usize, acc: u64, done: Ghost<Seq<char>>) -> (r: Option<u64>)
    requires
        from <= to <= s.len(),
        forall|k: int| from <= k < to ==> is_digit(#[trigger] s@[k]),
        forall|k: int| 0 <= k < done@.len() ==> is_digit(#[trigger] done@[k]),
        acc == digits_value(done@),
        acc <= max_mantissa(),
    ensures
        r is Some <==> digits_value(done@ + s@.subrange(from as int, to as int)) <= max_mantissa(),
        r matches Some(v) ==> v == digits_value(done@ + s@.subrange(from as int, to as int)),
{
    let ghost all = done@ + s@.subrange(from as int, to as int);
    let mut acc = acc;
    let mut k = from;
    proof {
        assert(all.take(done@.len() as int) =~= done@);
        assert forall|m: int| 0 <= m < all.len() implies is_digit(#[trigger] all[m]) by {
            if m >= done@.len() {
                assert(all[m] == s@[from + m - done@.len()]);
            }
        }
    }
    while k < to
        invariant
            from <= k <= to <= s.len(),
            all == done@ + s@.subrange(from as int, to as int),
            forall|m: int| 0 <= m < all.len() ==> is_digit(#[trigger] all[m]),
            acc == digits_value(all.take(done@.len() + k - from)),
            acc <= max_mantissa(),
        decreases to - k,
    {
        let ghost n = done@.len() + k - from;
        proof {
            assert(all.take(n + 1).drop_last() =~= all.take(n));
            assert(all[n] == s@[k as int]);
        }
        let d = (s[k] as u32 - '0' as u32) as u128;
        let next: u128 = (acc as u128) * 10 + d;
        if next > 0x7fff_ffff_ffff_ffff {
            proof {
                lemma_digits_grow(all, n + 1);
            }
            return None;
        }
        acc = next as u64;
        k = k + 1;
    }
    proof {
        assert(all.take(all.len() as int) =~= all);
    }
    Some(acc)
}

/// A number literal at `i`.
#[verifier::rlimit(40)]
fn number_x(s: &Vec<char>, i: usize) -> (r: Option<(Decimal, usize)>)
    requires
        i <= s.len(),
    ensures
        r is Some <==> number_at(s@, i as int) is Some,
        r matches Some((d, e)) ==> number_at(s@, i as int) == Some((ValueModel::Number(d), e as int)) && i < e <= s.len(),
{
    let neg = i < s.len() && s[i] == '-';
    let a = if neg { i + 1 } else { i };
    let b = digits_end_x(s, a);
    if b == a {
        return None;
    }
    let has_fraction = s.len() - b > 1 && s[b] == '.' && is_digit_x(s[b + 1]);
    let c = if has_fraction { digits_end_x(s, b + 1) } else { b };
    let fstart = if has_fraction { b + 1 } else { c };
    proof {
        if !has_fraction {
            assert(s@.subrange(fstart as int, c as int) =~= Seq::<char>::empty());
        }
        assert(Seq::<char>::empty() + s@.subrange(a as int, b as int) =~= s@.subrange(a as int, b as int));
    }
    if c - fstart > MAX_SCALE as usize {
        return None;
    }
    let whole = match add_digits(s, a, b, 0, Ghost(Seq::empty())) {
        Some(v) => v,
        None => {
            proof {
                let ip = s@.subrange(a as int, b as int);
                let fp = s@.subrange(fstart as int, c as int);
                assert((ip + fp).take(ip.len() as int) =~= ip);
                assert forall|m: int| 0 <= m < (ip + fp).len() implies is_digit(#[trigger] (ip + fp)[m]) by {
                    if m < ip.len() {
                        assert((ip + fp)[m] == s@[a + m]);
                    } else {
                        assert((ip + fp)[m] == s@[fstart + m - ip.len()]);
                    }
                }
                lemma_digits_grow(ip + fp, ip.len() as int);
            }
            return None;
        },
    };
    let magnitude = match add_digits(s, fstart, c, whole, Ghost(s@.subrange(a as int, b as int))) {
        Some(v) => v,
        None => {
            return None;
        },
    };
    let m: i64 = if neg { -(magnitude as i64) } else { magnitude as i64 };
    match Decimal::new(m, (c - fstart) as u32) {
        Some(d) => Some((d, c)),
        None => None,
    }
}

proof fn lemma_hex_bound(ds: Seq<char>)
    requires
        ds.len() <= 8,
        forall|m: int| 0 <= m < ds.len() ==> is_hex(#[trigger] ds[m]),
    ensures
        0 <= hex_value(ds) < pow16(ds.len()),
    decreases ds.len(),
{
    if ds.len() > 0 {
        lemma_hex_bound(ds.drop_last());
    }
}

pub open spec fn pow16(n: nat) -> int
    decreases n,
{
    if n == 0 {
        1
    } else {
        16 * pow16((n - 1) as nat)
    }
}

fn hex_digit_x(c: char) -> (r: u64)
    requires
        is_hex(c),
    ensures
        r == hex_digit_value(c),
        r < 16,
{
    if '0' <= c && c <= '9' {
        (c as u32 - '0' as u32) as u64
    } else if 'a' <= c && c <= 'f' {
        (c as u32 - 'a' as u32 + 10) as u64
    } else {
        (c as u32 - 'A' as u32 + 10) as u64
    }
}

/// The value of the hexadecimal digits `s[from..to]`, at most eight of them.
fn hex_x(s: &Vec<char>, from: usize, to: usize) -> (r: u32)
    requires
        from <= to <= s.len(),
        to - from <= 8,
        forall|k: int| from <= k < to ==> is_hex(#[trigger] s@[k]),
    ensures
        r == hex_value(s@.subrange(from as int, to as int)),
{
    let ghost ds = s@.subrange(from as int, to as int);
    let mut acc: u64 = 0;
    let mut k = from;
    proof {
        assert(ds.take(0) =~= Seq::<char>::empty());
    }
    while k < to
        invariant
            from <= k <= to <= s.len(),
            to - from <= 8,
            ds == s@.subrange(from as int, to as int),
            forall|m: int| from <= m < to ==> is_hex(#[trigger] s@[m]),
            acc == hex_value(ds.take(k - from)),
            acc < pow16((k - from) as nat),
            pow16((k - from) as nat) <= 0x1_0000_0000,
        decreases to - k,
    {
        proof {
            assert(ds.take(k - from + 1).drop_last() =~= ds.take(k - from));
            assert(ds[k - from] == s@[k as int]);
            reveal_with_fuel(pow16, 9);
            assert(pow16((k - from + 1) as nat) == 16 * pow16((k - from) as nat));
        }
        acc = acc * 16 + hex_digit_x(s[k]);
        k = k + 1;
    }
    proof {
        assert(ds.take(to - from) =~= ds);
    }
    acc as u32
}

/// Reads `text` as hexadecimal digits: one to eight of them, in either case.
pub fn parse_color(text: &str) -> (r: Option<u32>)
    ensures
        r is Some <==> (1 <= text@.len() <= 8 && forall|k: int| 0 <= k < text@.len() ==> is_hex(#[trigger] text@[k])),
        r matches Some(v) ==> v == hex_value(text@),
{
    let cs = crate::text::chars_of(text);
    if cs.len() == 0 || cs.len() > 8 {
        return None;
    }
    let mut k: usize = 0;
    while k < cs.len()
        invariant
            k <= cs.len(),
            cs@ == text@,
            forall|m: int| 0 <= m < k ==> is_hex(#[trigger] cs@[m]),
        decreases cs.len() - k,
    {
        if !is_hex_x(cs[k]) {
            return None;
        }
        k = k + 1;
    }
    proof {
        assert(cs@.subrange(0, cs.len() as int) =~= cs@);
    }
    Some(hex_x(&cs, 0, cs.len()))
}

fn color_x(s: &Vec<char>, i: usize) -> (r: Option<(u32, usize)>)
    requires
        i <= s.len(),
    ensures
        r is Some <==> color_at(s@, i as int) is Some,
        r matches Some((c, e)) ==> color_at(s@, i as int) == Some((ValueModel::Color(c), e as int)) && i < e <= s.len(),
{
    if s.len() - i < 9 || s[i] != '#' {
        return None;
    }
    let mut k = i + 1;
    while k < i + 9
        invariant
            i + 1 <= k <= i + 9 <= s.len(),
            forall|m: int| i + 1 <= m < k ==> is_hex(#[trigger] s@[m]),
        decreases i + 9 - k,
    {
        if !is_hex_x(s[k]) {
            return None;
        }
        k = k + 1;
    }
    proof {
        lemma_hex_bound(s@.subrange(i + 1, i + 9));
        assert forall|m: int| 0 <= m < 8 implies is_hex(#[trigger] s@.subrange(i + 1, i + 9)[m]) by {
            assert(s@.subrange(i + 1, i + 9)[m] == s@[i + 1 + m]);
        }
        reveal_with_fuel(pow16, 9);
    }
    let v = hex_x(s, i + 1, i + 9);
    Some((v, i + 9))
}

fn text_x(s: &Vec<char>, i: usize) -> (r: Option<(String, usize)>)
    requires
        i <= s.len(),
    ensures
        r is Some <==> text_at(s@, i as int) is Some,
        r matches Some((t, e)) ==> text_at(s@, i as int) == Some((t@, e as int)) && i < e <= s.len(),
{
    if i >= s.len() || s[i] != '"' {
        return None;
    }
    let e = match text_close_x(s, i + 1) {
        Some(e) => e,
        None => {
            return None;
        },
    };
    let raw = string_from(s, i, e);
    match unescape(raw.as_str()) {
        Some(t) => Some((t, e)),
        None => None,
    }
}

/// The keys of named models, in order.
pub open spec fn model_keys<W>(acc: Seq<(Seq<char>, W)>) -> Seq<Seq<char>> {
    acc.map_values(|e: (Seq<char>, W)| e.0)
}

/// Stores `v` under `k`: in place of the first entry under `k`, else at the end.
pub open spec fn put<W>(acc: Seq<(Seq<char>, W)>, k: Seq<char>, v: W) -> Seq<(Seq<char>, W)> {
    match first_pos(model_keys(acc), k) {
        Some(j) => acc.update(j, (k, v)),
        None => acc.push((k, v)),
    }
}

/// A value at `i`.
pub open spec fn value_at(s: Seq<char>, i: int) -> Option<(ValueModel, int)>
    decreases s.len() - i, 1nat,
{
    if i < 0 || i >= s.len() {
        None
    } else if s[i] == '"' {
        match text_at(s, i) {
            Some((t, e)) => Some((ValueModel::Text(t), e)),
            None => None,
        }
    } else if s[i] == '#' {
        color_at(s, i)
    } else if s[i] == '-' || is_digit(s[i]) {
        number_at(s, i)
    } else if s[i] == '[' {
        let k = skip_space(s, i + 1);
        if i < k <= s.len() {
            array_rest(s, k, Seq::empty())
        } else {
            None
        }
    } else if s[i] == '{' {
        let k = skip_space(s, i + 1);
        if i < k <= s.len() {
            match props_rest(s, k, '}', Seq::empty()) {
                Some((es, e)) => Some((ValueModel::Dict(es), e)),
                None => None,
            }
        } else {
            None
        }
    } else if is_letter(s[i]) {
        let e = word_end(s, i + 1);
        Some((word_value(s.subrange(i, e)), e))
    } else {
        None
    }
}

/// The rest of an array after `acc`, from `i` to its closing `]`.
pub open spec fn array_rest(s: Seq<char>, i: int, acc: Seq<ValueModel>) -> Option<(ValueModel, int)>
    decreases s.len() - i, 2nat,
{
    if i < 0 || i >= s.len() {
        None
    } else if s[i] == ']' {
        Some((ValueModel::Array(acc), i + 1))
    } else {
        match value_at(s, i) {
            Some((v, j)) => {
                let k = skip_space(s, j);
                if i < k <= s.len() {
                    array_rest(s, k, acc.push(v))
                } else {
                    None
                }
            },
            None => None,
        }
    }
}

/// A property `key: value` at `i`.
pub open spec fn property_at(s: Seq<char>, i: int) -> Option<((Seq<char>, ValueModel), int)>
    decreases s.len() - i, 1nat,
{
    match ident_at(s, i) {
        Some(e) => {
            let p = skip_space(s, e);
            if 0 <= p < s.len() && s[p] == ':' {
                let q = skip_space(s, p + 1);
                if i < q <= s.len() {
                    match value_at(s, q) {
                        Some((v, j)) => Some(((s.subrange(i, e), v), j)),
                        None => None,
                    }
                } else {
                    None
                }
            } else {
                None
            }
        },
        None => None,
    }
}

/// The rest of a list of properties after `acc`, from `i` to `close`; a later property
/// replaces an earlier one of the same key.
pub open spec fn props_rest(s: Seq<char>, i: int, close: char, acc: Seq<(Seq<char>, ValueModel)>) -> Option<
    (Seq<(Seq<char>, ValueModel)>, int),
>
    decreases s.len() - i, 2nat,
{
    if i < 0 || i >= s.len() {
        None
    } else if s[i] == close {
        Some((acc, i + 1))
    } else {
        match property_at(s, i) {
            Some(((k, v), j)) => {
                let n = skip_space(s, j);
                if i < n <= s.len() {
                    props_rest(s, n, close, put(acc, k, v))
                } else {
                    None
                }
            },
            None => None,
        }
    }
}

proof fn lemma_put_entries(es: Seq<(String, VnValue)>, key: String, value: VnValue)
    ensures
        entries_view(
            match first_pos(keys_of_entries(es), key@) {
                Some(j) => es.update(j, (key, value)),
                None => es.push((key, value)),
            },
        ) == put(entries_view(es), key@, value@),
{
    assert(model_keys(entries_view(es)) =~= keys_of_entries(es));
    match first_pos(keys_of_entries(es), key@) {
        Some(j) => {
            crate::lookup::lemma_first_pos(keys_of_entries(es), key@);
            assert(entries_view(es.update(j, (key, value))) =~= entries_view(es).update(j, (key@, value@)));
        },
        None => {
            assert(entries_view(es.push((key, value))) =~= entries_view(es).push((key@, value@)));
        },
    }
}

fn word_eq(s: &Vec<char>, a: usize, b: usize, w: &[char]) -> (r: bool)
    requires
        a <= b <= s.len(),
    ensures
        r == (s@.subrange(a as int, b as int) == w@),
{
    if b - a != w.len() {
        return false;
    }
    let mut k: usize = 0;
    while k < w.len()
        invariant
            b - a == w.len(),
            a <= b <= s.len(),
            k <= w.len(),
            forall|m: int| 0 <= m < k ==> s@[a + m] == w@[m],
        decreases w.len() - k,
    {
        if s[a + k] != w[k] {
            assert(s@.subrange(a as int, b as int)[k as int] != w@[k as int]);
            return false;
        }
        k = k + 1;
    }
    assert(s@.subrange(a as int, b as int) =~= w@);
    true
}

fn word_value_x(s: &Vec<char>, a: usize, b: usize) -> (r: VnValue)
    requires
        a <= b <= s.len(),
    ensures
        r@ == word_value(s@.subrange(a as int, b as int)),
{
    proof {
        assert(seq!['n', 'o', 'n', 'e'] =~= ['n', 'o', 'n', 'e']@);
        assert(seq!['t', 'r', 'u', 'e'] =~= ['t', 'r', 'u', 'e']@);
        assert(seq!['f', 'a', 'l', 's', 'e'] =~= ['f', 'a', 'l', 's', 'e']@);
    }
    if word_eq(s, a, b, &['n', 'o', 'n', 'e']) {
        VnValue::Null
    } else if word_eq(s, a, b, &['t', 'r', 'u', 'e']) {
        VnValue::Boolean(true)
    } else if word_eq(s, a, b, &['f', 'a', 'l', 's', 'e']) {
        VnValue::Boolean(false)
    } else {
        VnValue::Text(string_from(s, a, b))
    }
}

fn value_x(s: &Vec<char>, i: usize) -> (r: Option<(VnValue, usize)>)
    requires
        i <= s.len(),
    ensures
        r is Some <==> value_at(s@, i as int) is Some,
        r matches Some((v, e)) ==> value_at(s@, i as int) == Some((v@, e as int)) && i < e <= s.len(),
    decreases s.len() - i, 1nat,
{
    if i >= s.len() {
        return None;
    }
    let c = s[i];
    if c == '"' {
        match text_x(s, i) {
            Some((t, e)) => Some((VnValue::Text(t), e)),
            None => None,
        }
    } else if c == '#' {
        match color_x(s, i) {
            Some((v, e)) => Some((VnValue::Color(v), e)),
            None => None,
        }
    } else if c == '-' || is_digit_x(c) {
        match number_x(s, i) {
            Some((d, e)) => Some((VnValue::Number(d), e)),
            None => None,
        }
    } else if c == '[' {
        let k = skip_space_x(s, i + 1);
        array_x(s, k)
    } else if c == '{' {
        let k = skip_space_x(s, i + 1);
        match props_x(s, k, '}') {
            Some((es, e)) => {
                proof {
                    lemma_dict_view(es);
                }
                Some((VnValue::Dict(es), e))
            },
            None => None,
        }
    } else if is_letter_x(c) {
        let e = word_end_x(s, i + 1);
        Some((word_value_x(s, i, e), e))
    } else {
        None
    }
}

fn array_x(s: &Vec<char>, i: usize) -> (r: Option<(VnValue, usize)>)
    requires
        0 < i <= s.len(),
    ensures
        r is Some <==> array_rest(s@, i as int, Seq::empty()) is Some,
        r matches Some((v, e)) ==> array_rest(s@, i as int, Seq::empty()) == Some((v@, e as int)) && i < e
            <= s.len(),
    decreases s.len() - i, 2nat,
{
    let mut acc: Vec<VnValue> = Vec::new();
    let mut k = i;
    proof {
        assert(values_view(acc@) =~= Seq::<ValueModel>::empty());
    }
    loop
        invariant
            i <= k <= s.len(),
            array_rest(s@, i as int, Seq::empty()) == array_rest(s@, k as int, values_view(acc@)),
        decreases s.len() - k,
    {
        if k >= s.len() {
            return None;
        }
        if s[k] == ']' {
            proof {
                lemma_array_view(acc);
            }
            return Some((VnValue::Array(acc), k + 1));
        }
        match value_x(s, k) {
            Some((v, j)) => {
                let n = skip_space_x(s, j);
                proof {
                    assert(values_view(acc@.push(v)) =~= values_view(acc@).push(v@));
                }
                acc.push(v);
                k = n;
            },
            None => {
                return None;
            },
        }
    }
}

fn property_x(s: &Vec<char>, i: usize) -> (r: Option<(String, VnValue, usize)>)
    requires
        i <= s.len(),
    ensures
        r is Some <==> property_at(s@, i as int) is Some,
        r matches Some((k, v, e)) ==> property_at(s@, i as int) == Some(((k@, v@), e as int)) && i < e
            <= s.len(),
    decreases s.len() - i, 1nat,
{
    let e = match ident_x(s, i) {
        Some(e) => e,
        None => {
            return None;
        },
    };
    let p = skip_space_x(s, e);
    if p >= s.len() || s[p] != ':' {
        return None;
    }
    let q = skip_space_x(s, p + 1);
    match value_x(s, q) {
        Some((v, j)) => Some((string_from(s, i, e), v, j)),
        None => None,
    }
}

fn props_x(s: &Vec<char>, i: usize, close: char) -> (r: Option<(Vec<(String, VnValue)>, usize)>)
    requires
        i <= s.len(),
    ensures
        r is Some <==> props_rest(s@, i as int, close, Seq::empty()) is Some,
        r matches Some((es, e)) ==> props_rest(s@, i as int, close, Seq::empty()) == Some(
            (entries_view(es@), e as int),
        ) && i < e <= s.len(),
    decreases s.len() - i, 2nat,
{
    let mut acc: Vec<(String, VnValue)> = Vec::new();
    let mut k = i;
    proof {
        assert(entries_view(acc@) =~= Seq::<(Seq<char>, ValueModel)>::empty());
    }
    loop
        invariant
            i <= k <= s.len(),
            props_rest(s@, i as int, close, Seq::empty()) == props_rest(s@, k as int, close, entries_view(acc@)),
        decreases s.len() - k,
    {
        if k >= s.len() {
            return None;
        }
        if s[k] == close {
            return Some((acc, k + 1));
        }
        match property_x(s, k) {
            Some((key, v, j)) => {
                let n = skip_space_x(s, j);
                proof {
                    lemma_put_entries(acc@, key, v);
                }
                insert_entry(&mut acc, key, v);
                k = n;
            },
            None => {
                return None;
            },
        }
    }
}

pub open spec fn kw_label() -> Seq<char> {
    seq!['l', 'a', 'b', 'e', 'l']
}

pub open spec fn kw_import() -> Seq<char> {
    seq!['i', 'm', 'p', 'o', 'r', 't']
}

pub open spec fn kw_config() -> Seq<char> {
    seq!['c', 'o', 'n', 'f', 'i', 'g']
}

pub open spec fn kw_character() -> Seq<char> {
    seq!['c', 'h', 'a', 'r', 'a', 'c', 't', 'e', 'r']
}

pub open spec fn kw_scene() -> Seq<char> {
    seq!['s', 'c', 'e', 'n', 'e']
}

pub open spec fn kw_chapter() -> Seq<char> {
    seq!['c', 'h', 'a', 'p', 't', 'e', 'r']
}

/// A chapter item at `i`: `label name`, or an action `name(...)` or `module.name(...)`
/// with its arguments as properties.
pub open spec fn item_at(s: Seq<char>, i: int) -> Option<(ItemModel, int)> {
    match ident_at(s, i) {
        Some(e) => {
            let w = s.subrange(i, e);
            if w == kw_label() {
                let p = skip_space(s, e);
                match ident_at(s, p) {
                    Some(q) => Some((ItemModel::Label(s.subrange(p, q)), q)),
                    None => None,
                }
            } else {
                let dotted = e < s.len() && s[e] == '.' && ident_at(s, e + 1) is Some;
                let name_start = if dotted {
                    e + 1
                } else {
                    i
                };
                let name_end = if dotted {
                    ident_at(s, e + 1)->Some_0
                } else {
                    e
                };
                let module_name = if dotted {
                    Some(w)
                } else {
                    None
                };
                let p = skip_space(s, name_end);
                if 0 <= p < s.len() && s[p] == '(' {
                    let q = skip_space(s, p + 1);
                    match props_rest(s, q, ')', Seq::empty()) {
                        Some((params, r)) => Some(
                            (
                                ItemModel::Action(
                                    ActionModel {
                                        name: s.subrange(name_start, name_end),
                                        module_name,
                                        params,
                                    },
                                ),
                                r,
                            ),
                        ),
                        None => None,
                    }
                } else {
                    None
                }
            }
        },
        None => None,
    }
}

/// The rest of a chapter body after `acc`, from `i` to its closing `}`.
pub open spec fn items_rest(s: Seq<char>, i: int, acc: Seq<ItemModel>) -> Option<(Seq<ItemModel>, int)>
    decreases s.len() - i,
{
    if i < 0 || i >= s.len() {
        None
    } else if s[i] == '}' {
        Some((acc, i + 1))
    } else {
        match item_at(s, i) {
            Some((item, j)) => {
                let n = skip_space(s, j);
                if i < n <= s.len() {
                    items_rest(s, n, acc.push(item))
                } else {
                    None
                }
            },
            None => None,
        }
    }
}

/// The opening of a named block at `i`: the name, then `{`; gives the name and where
/// the body starts.
pub open spec fn block_at(s: Seq<char>, i: int) -> Option<(Seq<char>, int)> {
    match ident_at(s, i) {
        Some(e) => {
            let b = skip_space(s, e);
            if 0 <= b < s.len() && s[b] == '{' {
                Some((s.subrange(i, e), skip_space(s, b + 1)))
            } else {
                None
            }
        },
        None => None,
    }
}

/// `deps` with `d` added, unless it is there already.
pub open spec fn add_dependency(deps: Seq<Seq<char>>, d: Seq<char>) -> Seq<Seq<char>> {
    if deps.contains(d) {
        deps
    } else {
        deps.push(d)
    }
}

/// One top-level entry at `i`, taken into `acc`: an import, or a config, character,
/// scene or chapter block (a later block replaces an earlier one of the same name).
pub open spec fn entry_at(s: Seq<char>, i: int, acc: FileModel) -> Option<(FileModel, int)> {
    match ident_at(s, i) {
        Some(e) => {
            let w = s.subrange(i, e);
            let p = skip_space(s, e);
            if w == kw_import() {
                match text_at(s, p) {
                    Some((t, q)) => Some(
                        (FileModel { dependencies: add_dependency(acc.dependencies, t), ..acc }, q),
                    ),
                    None => None,
                }
            } else if w == kw_config() || w == kw_character() || w == kw_scene() {
                match block_at(s, p) {
                    Some((name, c)) => match props_rest(s, c, '}', Seq::empty()) {
                        Some((props, q)) => Some(
                            (
                                if w == kw_config() {
                                    FileModel { configs: put(acc.configs, name, props), ..acc }
                                } else if w == kw_character() {
                                    FileModel { characters: put(acc.characters, name, props), ..acc }
                                } else {
                                    FileModel { scenes: put(acc.scenes, name, props), ..acc }
                                },
                                q,
                            ),
                        ),
                        None => None,
                    },
                    None => None,
                }
            } else if w == kw_chapter() {
                match block_at(s, p) {
                    Some((name, c)) => match items_rest(s, c, Seq::empty()) {
                        Some((items, q)) => Some(
                            (FileModel { chapters: put(acc.chapters, name, items), ..acc }, q),
                        ),
                        None => None,
                    },
                    None => None,
                }
            } else {
                None
            }
        },
        None => None,
    }
}

/// The rest of a document after `acc`, from `i` to its end.
pub open spec fn file_rest(s: Seq<char>, i: int, acc: FileModel) -> Option<FileModel>
    decreases s.len() - i,
{
    if i < 0 || i > s.len() {
        None
    } else if i == s.len() {
        Some(acc)
    } else {
        match entry_at(s, i, acc) {
            Some((next, q)) => {
                let n = skip_space(s, q);
                if i < n <= s.len() {
                    file_rest(s, n, next)
                } else {
                    None
                }
            },
            None => None,
        }
    }
}

/// Where a document's first faulty entry starts, when it is not well formed (else its
/// length).
pub open spec fn failure_at(s: Seq<char>, i: int, acc: FileModel) -> int
    decreases s.len() - i,
{
    if i < 0 || i >= s.len() {
        i
    } else {
        match entry_at(s, i, acc) {
            Some((next, q)) => {
                let n = skip_space(s, q);
                if i < n <= s.len() {
                    failure_at(s, n, next)
                } else {
                    i
                }
            },
            None => i,
        }
    }
}

/// The line and column, both counted from 1, of position `k`.
pub open spec fn line_column(s: Seq<char>, k: int) -> (int, int)
    decreases k,
{
    if k <= 0 {
        (1, 1)
    } else {
        let (line, column) = line_column(s, k - 1);
        if s[k - 1] == '\n' {
            (line + 1, 1)
        } else {
            (line, column + 1)
        }
    }
}

pub open spec fn digit_char(d: int) -> char {
    if d == 0 {
        '0'
    } else if d == 1 {
        '1'
    } else if d == 2 {
        '2'
    } else if d == 3 {
        '3'
    } else if d == 4 {
        '4'
    } else if d == 5 {
        '5'
    } else if d == 6 {
        '6'
    } else if d == 7 {
        '7'
    } else if d == 8 {
        '8'
    } else {
        '9'
    }
}

/// The decimal digits of `n`.
pub open spec fn decimal(n: nat) -> Seq<char>
    decreases n,
{
    if n < 10 {
        seq![digit_char(n as int)]
    } else {
        decimal(n / 10).push(digit_char((n % 10) as int))
    }
}

/// The message for a document whose first faulty entry starts at position `k`.
pub open spec fn syntax_message(s: Seq<char>, k: int) -> Seq<char> {
    let (line, column) = line_column(s, k);
    "syntax error at line "@ + decimal(line as nat) + ", column "@ + decimal(column as nat)
}

pub open spec fn empty_file() -> FileModel {
    FileModel {
        dependencies: Seq::empty(),
        configs: Seq::empty(),
        characters: Seq::empty(),
        scenes: Seq::empty(),
        chapters: Seq::empty(),
    }
}

/// Where the first faulty entry of a document starts.
pub open spec fn document_failure(s: Seq<char>) -> int {
    failure_at(s, skip_space(s, 0), empty_file())
}

/// What a whole document denotes, if it is well formed.
pub open spec fn document(s: Seq<char>) -> Option<FileModel> {
    file_rest(s, skip_space(s, 0), empty_file())
}

fn item_x(s: &Vec<char>, i: usize) -> (r: Option<(VnChapterItem, usize)>)
    requires
        i <= s.len(),
    ensures
        r is Some <==> item_at(s@, i as int) is Some,
        r matches Some((it, e)) ==> item_at(s@, i as int) == Some((it@, e as int)) && i < e <= s.len(),
{
    let e = match ident_x(s, i) {
        Some(e) => e,
        None => {
            return None;
        },
    };
    proof {
        assert(kw_label() =~= ['l', 'a', 'b', 'e', 'l']@);
    }
    if word_eq(s, i, e, &['l', 'a', 'b', 'e', 'l']) {
        let p = skip_space_x(s, e);
        return match ident_x(s, p) {
            Some(q) => Some((VnChapterItem::Label(string_from(s, p, q)), q)),
            None => None,
        };
    }
    let dotted_end = if e < s.len() && s[e] == '.' {
        ident_x(s, e + 1)
    } else {
        None
    };
    let (name, module_name, name_end) = match dotted_end {
        Some(f) => (string_from(s, e + 1, f), Some(string_from(s, i, e)), f),
        None => (string_from(s, i, e), None, e),
    };
    let p = skip_space_x(s, name_end);
    if p >= s.len() || s[p] != '(' {
        return None;
    }
    let q = skip_space_x(s, p + 1);
    match props_x(s, q, ')') {
        Some((params, r)) => Some((VnChapterItem::Action(VnAction { name, module_name, params }), r)),
        None => None,
    }
}

fn items_x(s: &Vec<char>, i: usize) -> (r: Option<(Vec<VnChapterItem>, usize)>)
    requires
        i <= s.len(),
    ensures
        r is Some <==> items_rest(s@, i as int, Seq::empty()) is Some,
        r matches Some((items, e)) ==> items_rest(s@, i as int, Seq::empty()) == Some(
            (items_view(items@), e as int),
        ) && i < e <= s.len(),
{
    let mut acc: Vec<VnChapterItem> = Vec::new();
    let mut k = i;
    proof {
        assert(items_view(acc@) =~= Seq::<ItemModel>::empty());
    }
    loop
        invariant
            i <= k <= s.len(),
            items_rest(s@, i as int, Seq::empty()) == items_rest(s@, k as int, items_view(acc@)),
        decreases s.len() - k,
    {
        if k >= s.len() {
            return None;
        }
        if s[k] == '}' {
            return Some((acc, k + 1));
        }
        match item_x(s, k) {
            Some((item, j)) => {
                let n = skip_space_x(s, j);
                proof {
                    assert(items_view(acc@.push(item)) =~= items_view(acc@).push(item@));
                }
                acc.push(item);
                k = n;
            },
            None => {
                return None;
            },
        }
    }
}

fn block_x(s: &Vec<char>, i: usize) -> (r: Option<(String, usize)>)
    requires
        i <= s.len(),
    ensures
        r is Some <==> block_at(s@, i as int) is Some,
        r matches Some((name, c)) ==> block_at(s@, i as int) == Some((name@, c as int)) && i < c
            <= s.len(),
{
    let e = match ident_x(s, i) {
        Some(e) => e,
        None => {
            return None;
        },
    };
    let b = skip_space_x(s, e);
    if b >= s.len() || s[b] != '{' {
        return None;
    }
    Some((string_from(s, i, e), skip_space_x(s, b + 1)))
}

proof fn lemma_put_view<V, W>(
    es: Seq<(String, V)>,
    view: Seq<(Seq<char>, W)>,
    key: Seq<char>,
    w: W,
    new_view: Seq<(Seq<char>, W)>,
)
    requires
        view.len() == es.len(),
        forall|i: int| 0 <= i < es.len() ==> (#[trigger] view[i]).0 == es[i].0@,
        new_view == match first_pos(keys_of_entries(es), key) {
            Some(j) => view.update(j, (key, w)),
            None => view.push((key, w)),
        },
    ensures
        new_view == put(view, key, w),
{
    assert(model_keys(view) =~= keys_of_entries(es));
}

fn add_dependency_x(deps: &mut Vec<String>, d: String)
    ensures
        final(deps)@.map_values(|x: String| x@) == add_dependency(old(deps)@.map_values(|x: String| x@), d@),
{
    let ghost view = deps@.map_values(|x: String| x@);
    let mut k: usize = 0;
    while k < deps.len()
        invariant
            k <= deps.len(),
            view == deps@.map_values(|x: String| x@),
            forall|m: int| 0 <= m < k ==> view[m] != d@,
        decreases deps.len() - k,
    {
        if deps[k] == d {
            assert(view[k as int] == d@);
            return;
        }
        k = k + 1;
    }
    assert(!view.contains(d@));
    deps.push(d);
    assert(deps@.map_values(|x: String| x@) =~= view.push(d@));
}

/// Parses a whole document.
#[verifier::rlimit(60)]
fn document_x(s: &Vec<char>) -> (r: Result<VnFile, usize>)
    ensures
        r is Ok <==> document(s@) is Some,
        r matches Ok(f) ==> document(s@) == Some(f@) && f.story.wf(),
        r matches Err(k) ==> k < s.len() && k == document_failure(s@),
{
    let mut file = VnFile { dependencies: Vec::new(), story: VnStory::new() };
    let mut k = skip_space_x(s, 0);
    proof {
        assert(file.dependencies@.map_values(|x: String| x@) =~= Seq::<Seq<char>>::empty());
        assert(configs_view(file.story.configs@) =~= Seq::empty());
        assert(characters_view(file.story.characters@) =~= Seq::empty());
        assert(scenes_view(file.story.scenes@) =~= Seq::empty());
        assert(chapters_view(file.story.chapters@) =~= Seq::empty());
        assert(file@ == empty_file());
        assert(kw_import() =~= ['i', 'm', 'p', 'o', 'r', 't']@);
        assert(kw_config() =~= ['c', 'o', 'n', 'f', 'i', 'g']@);
        assert(kw_character() =~= ['c', 'h', 'a', 'r', 'a', 'c', 't', 'e', 'r']@);
        assert(kw_scene() =~= ['s', 'c', 'e', 'n', 'e']@);
        assert(kw_chapter() =~= ['c', 'h', 'a', 'p', 't', 'e', 'r']@);
    }
    loop
        invariant
            k <= s.len(),
            document(s@) == file_rest(s@, k as int, file@),
            document_failure(s@) == failure_at(s@, k as int, file@),
            file.story.wf(),
            kw_import() == ['i', 'm', 'p', 'o', 'r', 't']@,
            kw_config() == ['c', 'o', 'n', 'f', 'i', 'g']@,
            kw_character() == ['c', 'h', 'a', 'r', 'a', 'c', 't', 'e', 'r']@,
            kw_scene() == ['s', 'c', 'e', 'n', 'e']@,
            kw_chapter() == ['c', 'h', 'a', 'p', 't', 'e', 'r']@,
        decreases s.len() - k,
    {
        if k == s.len() {
            return Ok(file);
        }
        let e = match ident_x(s, k) {
            Some(e) => e,
            None => {
                return Err(k);
            },
        };
        let p = skip_space_x(s, e);
        let ghost before = file@;
        let q;
        if word_eq(s, k, e, &['i', 'm', 'p', 'o', 'r', 't']) {
            match text_x(s, p) {
                Some((t, end)) => {
                    add_dependency_x(&mut file.dependencies, t);
                    q = end;
                },
                None => {
                    return Err(k);
                },
            }
        } else if word_eq(s, k, e, &['c', 'h', 'a', 'p', 't', 'e', 'r']) {
            let (name, c) = match block_x(s, p) {
                Some(b) => b,
                None => {
                    return Err(k);
                },
            };
            match items_x(s, c) {
                Some((items, end)) => {
                    let ghost es = file.story.chapters@;
                    let chapter = VnChapter { items };
                    let ghost w = chapter@;
                    let ghost key = name@;
                    insert_entry(&mut file.story.chapters, name, chapter);
                    proof {
                        match first_pos(keys_of_entries(es), key) {
                            Some(j) => {
                                lemma_first_pos(keys_of_entries(es), key);
                                assert(chapters_view(file.story.chapters@) =~= chapters_view(es).update(j, (key, w)));
                            },
                            None => {
                                assert(chapters_view(file.story.chapters@) =~= chapters_view(es).push((key, w)));
                            },
                        }
                        lemma_put_view(es, chapters_view(es), key, w, chapters_view(file.story.chapters@));
                    }
                    q = end;
                },
                None => {
                    return Err(k);
                },
            }
        } else {
            let is_config = word_eq(s, k, e, &['c', 'o', 'n', 'f', 'i', 'g']);
            let is_character = word_eq(s, k, e, &['c', 'h', 'a', 'r', 'a', 'c', 't', 'e', 'r']);
            let is_scene = word_eq(s, k, e, &['s', 'c', 'e', 'n', 'e']);
            if !(is_config || is_character || is_scene) {
                return Err(k);
            }
            let (name, c) = match block_x(s, p) {
                Some(b) => b,
                None => {
                    return Err(k);
                },
            };
            let (props, end) = match props_x(s, c, '}') {
                Some(r) => r,
                None => {
                    return Err(k);
                },
            };
            let ghost key = name@;
            let ghost w = entries_view(props@);
            if is_config {
                let ghost es = file.story.configs@;
                insert_entry(&mut file.story.configs, name, VnConfig { properties: props });
                proof {
                    match first_pos(keys_of_entries(es), key) {
                        Some(j) => {
                            lemma_first_pos(keys_of_entries(es), key);
                            assert(configs_view(file.story.configs@) =~= configs_view(es).update(j, (key, w)));
                        },
                        None => {
                            assert(configs_view(file.story.configs@) =~= configs_view(es).push((key, w)));
                        },
                    }
                    lemma_put_view(es, configs_view(es), key, w, configs_view(file.story.configs@));
                }
            } else if is_character {
                let ghost es = file.story.characters@;
                insert_entry(&mut file.story.characters, name, VnCharacter { properties: props });
                proof {
                    match first_pos(keys_of_entries(es), key) {
                        Some(j) => {
                            lemma_first_pos(keys_of_entries(es), key);
                            assert(characters_view(file.story.characters@) =~= characters_view(es).update(j, (key, w)));
                        },
                        None => {
                            assert(characters_view(file.story.characters@) =~= characters_view(es).push((key, w)));
                        },
                    }
                    lemma_put_view(es, characters_view(es), key, w, characters_view(file.story.characters@));
                }
            } else {
                let ghost es = file.story.scenes@;
                insert_entry(&mut file.story.scenes, name, VnScene { properties: props });
                proof {
                    match first_pos(keys_of_entries(es), key) {
                        Some(j) => {
                            lemma_first_pos(keys_of_entries(es), key);
                            assert(scenes_view(file.story.scenes@) =~= scenes_view(es).update(j, (key, w)));
                        },
                        None => {
                            assert(scenes_view(file.story.scenes@) =~= scenes_view(es).push((key, w)));
                        },
                    }
                    lemma_put_view(es, scenes_view(es), key, w, scenes_view(file.story.scenes@));
                }
            }
            q = end;
        }
        let n = skip_space_x(s, q);
        if n <= k {
            return Err(k);
        }
        k = n;
    }
}

/// The line and column (both from 1) of position `k`.
fn line_and_column(s: &Vec<char>, k: usize) -> (r: (usize, usize))
    requires
        k < s.len(),
    ensures
        (r.0 as int, r.1 as int) == line_column(s@, k as int),
{
    let mut line: usize = 1;
    let mut column: usize = 1;
    let mut i: usize = 0;
    while i < k
        invariant
            i <= k < s.len(),
            (line as int, column as int) == line_column(s@, i as int),
            line <= i + 1,
            column <= i + 1,
        decreases k - i,
    {
        if s[i] == '\n' {
            line = line + 1;
            column = 1;
        } else {
            column = column + 1;
        }
        i = i + 1;
    }
    (line, column)
}

fn digit_char_x(d: usize) -> (r: char)
    requires
        d < 10,
    ensures
        r == digit_char(d as int),
{
    if d == 0 {
        '0'
    } else if d == 1 {
        '1'
    } else if d == 2 {
        '2'
    } else if d == 3 {
        '3'
    } else if d == 4 {
        '4'
    } else if d == 5 {
        '5'
    } else if d == 6 {
        '6'
    } else if d == 7 {
        '7'
    } else if d == 8 {
        '8'
    } else {
        '9'
    }
}

fn push_decimal(out: &mut Vec<char>, n: usize)
    ensures
        final(out)@ == old(out)@ + decimal(n as nat),
    decreases n,
{
    if n < 10 {
        out.push(digit_char_x(n));
        assert(final(out)@ =~= old(out)@ + decimal(n as nat)) by {
            assert(decimal(n as nat) == seq![digit_char(n as int)]);
        }
    } else {
        push_decimal(out, n / 10);
        out.push(digit_char_x(n % 10));
        assert(out@ =~= old(out)@ + decimal(n as nat));
    }
}

/// The message for a syntax error at position `k`.
fn syntax_error(s: &Vec<char>, k: usize) -> (r: String)
    requires
        k < s.len(),
    ensures
        r@ == syntax_message(s@, k as int),
{
    let (line, column) = line_and_column(s, k);
    let mut message = crate::text::chars_of("syntax error at line ");
    push_decimal(&mut message, line);
    let mut rest = crate::text::chars_of(", column ");
    message.append(&mut rest);
    push_decimal(&mut message, column);
    let n = message.len();
    let r = string_from(&message, 0, n);
    proof {
        assert(message@.subrange(0, n as int) =~= message@);
    }
    r
}

/// The parser of the story language.
pub struct VnScriptParser;

impl VnScriptParser {
    /// Parses a document; on a syntax error, a message with the line and column where
    /// the offending entry starts.
    pub fn parse(content: &str) -> (r: Result<VnFile, String>)
        ensures
            r is Ok <==> document(content@) is Some,
            r matches Ok(f) ==> document(content@) == Some(f@) && f.story.wf(),
            r matches Err(m) ==> m@ == syntax_message(content@, document_failure(content@)),
    {
        let s = crate::text::chars_of(content);
        match document_x(&s) {
            Ok(f) => Ok(f),
            Err(k) => Err(syntax_error(&s, k)),
        }
    }
}

/// Parses a document; see `VnScriptParser::parse`.
pub fn parse(content: &str) -> (r: Result<VnFile, String>)
    ensures
        r is Ok <==> document(content@) is Some,
        r matches Ok(f) ==> document(content@) == Some(f@) && f.story.wf(),
        r matches Err(m) ==> m@ == syntax_message(content@, document_failure(content@)),
{
    VnScriptParser::parse(content)
}

} // verus!
