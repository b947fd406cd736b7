//! Reading of `model_config.json` by scanning for keys.

use vstd::prelude::*;
use vstd::slice::slice_subrange;

use crate::constants::MAX_K;
use crate::text::{append_i64, append_usize, chars_of, decimal, signed_decimal};
use crate::types::{ExpertLayoutTable, ModelConfig};

verus! {

/// Unicode white space.
pub open spec fn is_white_space(c: char) -> bool {
    let u = c as u32;
    ||| 0x09 <= u <= 0x0D
    ||| u == 0x20
    ||| u == 0x85
    ||| u == 0xA0
    ||| u == 0x1680
    ||| 0x2000 <= u <= 0x200A
    ||| u == 0x2028
    ||| u == 0x2029
    ||| u == 0x202F
    ||| u == 0x205F
    ||| u == 0x3000
}

/// Whether a character is Unicode white space.
pub fn white_space(c: char) -> (r: bool)
    ensures
        r == is_white_space(c),
{
    let u: u32 = c as u32;
    (0x09 <= u && u <= 0x0D) || u == 0x20 || u == 0x85 || u == 0xA0 || u == 0x1680 || (0x2000 <= u
        && u <= 0x200A) || u == 0x2028 || u == 0x2029 || u == 0x202F || u == 0x205F || u == 0x3000
}

/// A character that ends a number.
pub open spec fn ends_number(c: char) -> bool {
    c == ',' || c == '}' || c == ']' || c == '\n' || c == '\r' || c == ' ' || c == '\t'
}

/// The word stands in the text at position `i`.
pub open spec fn occurs_at(text: Seq<char>, word: Seq<char>, i: int) -> bool {
    i + word.len() <= text.len() && text.subrange(i, i + word.len()) == word
}

/// The first position from `i` on that is not white space, else the length.
pub open spec fn skip_white_space(text: Seq<char>, i: int) -> int
    decreases text.len() - i,
{
    if i >= text.len() {
        text.len() as int
    } else if is_white_space(text[i]) {
        skip_white_space(text, i + 1)
    } else {
        i
    }
}

/// The first position from `i` on that ends a number, else the length.
pub open spec fn number_end(text: Seq<char>, i: int) -> int
    decreases text.len() - i,
{
    if i >= text.len() {
        text.len() as int
    } else if ends_number(text[i]) {
        i
    } else {
        number_end(text, i + 1)
    }
}

/// The key as it stands in the file.
pub open spec fn quoted(key: Seq<char>) -> Seq<char> {
    seq!['"'] + key + seq!['"']
}

/// The position of the colon that follows a quoted word of `len` characters at `p`, if only
/// white space stands between them; else a position that holds none.
pub open spec fn colon_behind(text: Seq<char>, len: int, p: int) -> int {
    skip_white_space(text, p + len)
}

/// The quoted word stands at position `p` as a key: a colon follows it.
pub open spec fn key_at(text: Seq<char>, word: Seq<char>, p: int) -> bool {
    let c = colon_behind(text, word.len() as int, p);
    occurs_at(text, word, p) && c < text.len() && text[c] == ':'
}

/// The first position from `i` on at which the quoted word stands as a key.
pub open spec fn find_key(text: Seq<char>, word: Seq<char>, i: int) -> Option<int>
    decreases text.len() + 1 - i,
{
    if i > text.len() {
        None
    } else if key_at(text, word, i) {
        Some(i)
    } else {
        find_key(text, word, i + 1)
    }
}

/// Where the value of a key starts: past the quoted key, its colon, and white space. A string
/// value that reads like the key is not the key.
pub open spec fn value_start(text: Seq<char>, key: Seq<char>) -> Option<int> {
    match find_key(text, quoted(key), 0) {
        None => None,
        Some(p) => Some(
            skip_white_space(text, colon_behind(text, quoted(key).len() as int, p) + 1),
        ),
    }
}

/// The value of a run of decimal digits, `None` if it holds anything else.
pub open spec fn digits_value(s: Seq<char>) -> Option<int>
    decreases s.len(),
{
    if s.len() == 0 {
        Some(0)
    } else {
        let c = s.last();
        match digits_value(s.drop_last()) {
            Some(v) => if '0' <= c <= '9' {
                Some(v * 10 + (c as int - '0' as int))
            } else {
                None
            },
            None => None,
        }
    }
}

/// The number that a text stands for: an optional sign and at least one digit, in the range
/// of a 32-bit integer.
pub open spec fn parsed_int(s: Seq<char>) -> Option<int> {
    if s.len() == 0 {
        None
    } else {
        let signed = s[0] == '+' || s[0] == '-';
        let digits = if signed {
            s.skip(1)
        } else {
            s
        };
        if digits.len() == 0 {
            None
        } else {
            match digits_value(digits) {
                Some(v) => {
                    let n = if s[0] == '-' {
                        -v
                    } else {
                        v
                    };
                    if i32::MIN <= n <= i32::MAX {
                        Some(n)
                    } else {
                        None
                    }
                },
                None => None,
            }
        }
    }
}

/// The integer value of a key, or the default where the key is missing or its value is no
/// integer.
pub open spec fn int_value(text: Seq<char>, key: Seq<char>, default: int) -> int {
    match value_start(text, key) {
        None => default,
        Some(v) => match parsed_int(text.subrange(v, number_end(text, v))) {
            Some(n) => n,
            None => default,
        },
    }
}

/// The position past the brace that closes the one at depth `depth`, scanning from `i`.
pub open spec fn brace_end(text: Seq<char>, i: int, depth: int) -> Option<int>
    decreases text.len() - i,
{
    if i >= text.len() {
        None
    } else if text[i] == '{' {
        brace_end(text, i + 1, depth + 1)
    } else if text[i] == '}' {
        if depth == 1 {
            Some(i + 1)
        } else {
            brace_end(text, i + 1, depth - 1)
        }
    } else {
        brace_end(text, i + 1, depth)
    }
}

/// The object that is the value of a key.
pub open spec fn object_value(text: Seq<char>, key: Seq<char>) -> Option<Seq<char>> {
    match value_start(text, key) {
        None => None,
        Some(v) => if v < text.len() && text[v] == '{' {
            match brace_end(text, v, 0) {
                None => None,
                Some(e) => Some(text.subrange(v, e)),
            }
        } else {
            None
        },
    }
}

/// The layout table that an object describes; a missing entry is 0.
pub open spec fn layout_of(obj: Seq<char>, l: ExpertLayoutTable) -> bool {
    &&& l.gate_w_off == int_value(obj, "gate_w_off"@, 0)
    &&& l.gate_s_off == int_value(obj, "gate_s_off"@, 0)
    &&& l.gate_b_off == int_value(obj, "gate_b_off"@, 0)
    &&& l.up_w_off == int_value(obj, "up_w_off"@, 0)
    &&& l.up_s_off == int_value(obj, "up_s_off"@, 0)
    &&& l.up_b_off == int_value(obj, "up_b_off"@, 0)
    &&& l.down_w_off == int_value(obj, "down_w_off"@, 0)
    &&& l.down_s_off == int_value(obj, "down_s_off"@, 0)
    &&& l.down_b_off == int_value(obj, "down_b_off"@, 0)
    &&& l.gate_w_size == int_value(obj, "gate_w_size"@, 0)
    &&& l.gate_s_size == int_value(obj, "gate_s_size"@, 0)
    &&& l.gate_b_size == int_value(obj, "gate_b_size"@, 0)
    &&& l.up_w_size == int_value(obj, "up_w_size"@, 0)
    &&& l.up_s_size == int_value(obj, "up_s_size"@, 0)
    &&& l.up_b_size == int_value(obj, "up_b_size"@, 0)
    &&& l.down_w_size == int_value(obj, "down_w_size"@, 0)
    &&& l.down_s_size == int_value(obj, "down_s_size"@, 0)
    &&& l.down_b_size == int_value(obj, "down_b_size"@, 0)
}

fn occurs(text: &[char], word: &[char], i: usize) -> (r: bool)
    requires
        i + word@.len() <= text@.len(),
    ensures
        r == occurs_at(text@, word@, i as int),
{
    let tn: usize = text.len();
    for j in 0..word.len()
        invariant
            tn == text@.len(),
            i + word@.len() <= tn,
            forall|l: int| 0 <= l < j ==> text@[i + l] == word@[l],
    {
        if text[i + j] != word[j] {
            assert(text@.subrange(i as int, i + word@.len())[j as int] != word@[j as int]);
            return false;
        }
    }
    assert(text@.subrange(i as int, i + word@.len()) =~= word@);
    true
}

/// The first position from `i` on that is not white space, else the length.
fn behind_white_space(text: &[char], i: usize) -> (r: usize)
    requires
        i <= text@.len(),
    ensures
        r == skip_white_space(text@, i as int),
        i <= r <= text@.len(),
{
    let mut v: usize = i;
    while v < text.len() && white_space(text[v])
        invariant
            i <= v <= text@.len(),
            skip_white_space(text@, i as int) == skip_white_space(text@, v as int),
        decreases text@.len() - v,
    {
        v = v + 1;
    }
    v
}

/// Where the value of a key starts in the text.
pub fn seek_value(text: &[char], key: &str) -> (r: Option<usize>)
    ensures
        match r {
            Some(v) => value_start(text@, key@) == Some(v as int) && v <= text@.len(),
            None => value_start(text@, key@) is None,
        },
{
    let mut needle: Vec<char> = Vec::new();
    needle.push('"');
    let body: Vec<char> = chars_of(key);
    let n: usize = body.len();
    for i in 0..n
        invariant
            n == body@.len(),
            needle@ == seq!['"'] + body@.take(i as int),
    {
        needle.push(body[i]);
        assert(needle@ =~= seq!['"'] + body@.take(i + 1));
    }
    needle.push('"');
    assert(body@.take(n as int) =~= body@);
    assert(needle@ =~= quoted(key@));
    let mut p: usize = 0;
    let m: usize = needle.len();
    while m <= text.len() - p
        invariant
            m == needle@.len(),
            0 < m,
            needle@ == quoted(key@),
            p <= text@.len(),
            find_key(text@, needle@, 0) == find_key(text@, needle@, p as int),
        decreases text@.len() - p,
    {
        if occurs(text, needle.as_slice(), p) {
            let c: usize = behind_white_space(text, p + m);
            if c < text.len() && text[c] == ':' {
                return Some(behind_white_space(text, c + 1));
            }
        }
        p = p + 1;
    }
    proof {
        lemma_no_room(text@, needle@, p as int);
    }
    None
}

proof fn lemma_no_room(text: Seq<char>, word: Seq<char>, i: int)
    requires
        0 <= i,
        i + word.len() > text.len(),
    ensures
        find_key(text, word, i) is None,
    decreases text.len() + 1 - i,
{
    if i <= text.len() {
        lemma_no_room(text, word, i + 1);
    }
}

/// The end of the number that starts at `i`.
fn token_end(text: &[char], i: usize) -> (e: usize)
    requires
        i <= text@.len(),
    ensures
        e == number_end(text@, i as int),
        i <= e <= text@.len(),
{
    let mut e: usize = i;
    while e < text.len() && !(text[e] == ',' || text[e] == '}' || text[e] == ']' || text[e] == '\n'
        || text[e] == '\r' || text[e] == ' ' || text[e] == '\t')
        invariant
            i <= e <= text@.len(),
            number_end(text@, i as int) == number_end(text@, e as int),
        decreases text@.len() - e,
    {
        e = e + 1;
    }
    e
}

proof fn lemma_digits_grow(s: Seq<char>, n: int)
    requires
        0 <= n <= s.len(),
    ensures
        digits_value(s) is Some ==> digits_value(s.take(n)) is Some && 0 <= digits_value(
            s.take(n),
        )->0 <= digits_value(s)->0,
    decreases s.len(),
{
    if n == s.len() {
        assert(s.take(n) =~= s);
        if n > 0 {
            lemma_digits_grow(s.drop_last(), n - 1);
        }
    } else {
        lemma_digits_grow(s.drop_last(), n);
        assert(s.drop_last().take(n) =~= s.take(n));
    }
}

/// The number that a text stands for.
pub fn parse_int(s: &[char]) -> (r: Option<i32>)
    ensures
        match r {
            Some(n) => parsed_int(s@) == Some(n as int),
            None => parsed_int(s@) is None,
        },
{
    let n: usize = s.len();
    if n == 0 {
        return None;
    }
    let negative: bool = s[0] == '-';
    let start: usize = if s[0] == '+' || s[0] == '-' {
        1
    } else {
        0
    };
    if start == n {
        return None;
    }
    let ghost digits = s@.skip(start as int);
    assert(start == 0 ==> digits =~= s@);
    let mut acc: i64 = 0;
    for i in start..n
        invariant
            n == s@.len(),
            start <= 1,
            digits == s@.skip(start as int),
            digits_value(digits.take(i - start)) == Some(acc as int),
            0 <= acc <= 0x8000_0000,
            parsed_int(s@) is Some ==> digits_value(digits) is Some && digits_value(digits)->0
                <= 0x8000_0000,
    {
        let c: char = s[i];
        let ghost part = digits.take(i + 1 - start);
        proof {
            assert(part.drop_last() =~= digits.take(i - start));
            assert(part.last() == c);
            lemma_digits_grow(digits, i + 1 - start);
        }
        if !('0' <= c && c <= '9') {
            return None;
        }
        acc = acc * 10 + (c as u32 - '0' as u32) as i64;
        if acc > 0x8000_0000 {
            return None;
        }
    }
    proof {
        assert(digits.take(n - start) =~= digits);
    }
    if negative {
        Some((-acc) as i32)
    } else if acc > 0x7FFF_FFFF {
        None
    } else {
        Some(acc as i32)
    }
}

/// The integer value of a key, or the default where the key is missing or its value is no
/// integer.
pub fn json_int(text: &[char], key: &str, default: i32) -> (r: i32)
    ensures
        r == int_value(text@, key@, default as int),
{
    let v: usize = match seek_value(text, key) {
        Some(v) => v,
        None => {
            return default;
        },
    };
    let e: usize = token_end(text, v);
    match parse_int(slice_subrange(text, v, e)) {
        Some(n) => n,
        None => default,
    }
}

/// The layout table that is the value of a key, `None` where the key is missing or its value
/// is not a closed object.
pub fn json_layout(text: &[char], key: &str) -> (r: Option<ExpertLayoutTable>)
    ensures
        match r {
            Some(l) => object_value(text@, key@) is Some && layout_of(
                object_value(text@, key@)->0,
                l,
            ),
            None => object_value(text@, key@) is None,
        },
{
    let v: usize = match seek_value(text, key) {
        Some(v) => v,
        None => {
            return None;
        },
    };
    if v >= text.len() || text[v] != '{' {
        return None;
    }
    let mut depth: usize = 0;
    let mut i: usize = v;
    loop
        invariant
            v <= i <= text@.len(),
            depth <= i - v,
            i > v ==> depth >= 1,
            i == v ==> depth == 0,
            v < text@.len(),
            text@[v as int] == '{',
            value_start(text@, key@) == Some(v as int),
            brace_end(text@, v as int, 0) == brace_end(text@, i as int, depth as int),
        ensures
            v <= i < text@.len(),
            brace_end(text@, v as int, 0) == Some(i + 1),
        decreases text@.len() - i,
    {
        if i >= text.len() {
            return None;
        }
        if text[i] == '{' {
            depth = depth + 1;
        } else if text[i] == '}' {
            if depth == 1 {
                break;
            }
            depth = depth - 1;
        }
        i = i + 1;
    }
    let obj = slice_subrange(text, v, i + 1);
    Some(ExpertLayoutTable {
        gate_w_off: json_int(obj, "gate_w_off", 0),
        gate_s_off: json_int(obj, "gate_s_off", 0),
        gate_b_off: json_int(obj, "gate_b_off", 0),
        up_w_off: json_int(obj, "up_w_off", 0),
        up_s_off: json_int(obj, "up_s_off", 0),
        up_b_off: json_int(obj, "up_b_off", 0),
        down_w_off: json_int(obj, "down_w_off", 0),
        down_s_off: json_int(obj, "down_s_off", 0),
        down_b_off: json_int(obj, "down_b_off", 0),
        gate_w_size: json_int(obj, "gate_w_size", 0),
        gate_s_size: json_int(obj, "gate_s_size", 0),
        gate_b_size: json_int(obj, "gate_b_size", 0),
        up_w_size: json_int(obj, "up_w_size", 0),
        up_s_size: json_int(obj, "up_s_size", 0),
        up_b_size: json_int(obj, "up_b_size", 0),
        down_w_size: json_int(obj, "down_w_size", 0),
        down_s_size: json_int(obj, "down_s_size", 0),
        down_b_size: json_int(obj, "down_b_size", 0),
    })
}

/// The last position up to `e`, not before `v`, that ends a run that is not white space.
pub open spec fn trim_end(text: Seq<char>, v: int, e: int) -> int
    decreases e - v,
{
    if e <= v {
        v
    } else if is_white_space(text[e - 1]) {
        trim_end(text, v, e - 1)
    } else {
        e
    }
}

/// The text of the number that is the value of a key, `None` where there is none.
pub open spec fn number_text(text: Seq<char>, key: Seq<char>) -> Option<Seq<char>> {
    match value_start(text, key) {
        None => None,
        Some(v) => {
            let e = number_end(text, v);
            if e == v {
                None
            } else {
                Some(text.subrange(v, trim_end(text, v, e)))
            }
        },
    }
}

/// The text of the real number that is the value of a key, `None` where there is none.
pub fn json_float(text: &str, key: &str) -> (r: Option<String>)
    ensures
        match r {
            Some(s) => number_text(text@, key@) == Some(s@),
            None => number_text(text@, key@) is None,
        },
{
    let chars: Vec<char> = chars_of(text);
    let v: usize = match seek_value(chars.as_slice(), key) {
        Some(v) => v,
        None => {
            return None;
        },
    };
    let end: usize = token_end(chars.as_slice(), v);
    if end == v {
        return None;
    }
    let mut e: usize = end;
    while e > v && white_space(chars[e - 1])
        invariant
            v <= e <= end <= chars@.len(),
            trim_end(chars@, v as int, end as int) == trim_end(chars@, v as int, e as int),
        decreases e - v,
    {
        e = e - 1;
    }
    Some(text.substring_char(v, e).to_owned())
}

/// White space of the file's format.
pub open spec fn is_blank(c: char) -> bool {
    c == ' ' || c == '\t' || c == '\n' || c == '\r'
}

/// The key in quotes stands in the text at position `q`.
pub open spec fn quoted_at(text: Seq<char>, key: Seq<char>, q: int) -> bool {
    &&& 0 <= q
    &&& q + key.len() + 2 <= text.len()
    &&& text[q] == '"'
    &&& text.subrange(q + 1, q + 1 + key.len()) == key
    &&& text[q + 1 + key.len()] == '"'
}

/// The text holds, for the first time, the key in quotes at `p`, a colon at `c`, and at `v` what
/// follows, with blanks between them at most. Where the quoted word stands before, it is a value:
/// a comma or a bracket follows it.
pub open spec fn entry_at(text: Seq<char>, key: Seq<char>, p: int, c: int, v: int) -> bool {
    &&& quoted_at(text, key, p)
    &&& p + key.len() + 2 <= c < v < text.len()
    &&& forall|i: int| p + key.len() + 2 <= i < c ==> is_blank(#[trigger] text[i])
    &&& text[c] == ':'
    &&& forall|i: int| c < i < v ==> is_blank(#[trigger] text[i])
    &&& forall|q: int|
        0 <= q < p && #[trigger] quoted_at(text, key, q) ==> {
            let next = text[q + key.len() + 2];
            next == ',' || next == '}' || next == ']'
        }
}

proof fn lemma_skips_blanks(text: Seq<char>, i: int, v: int)
    requires
        0 <= i <= v < text.len(),
        forall|j: int| i <= j < v ==> is_blank(#[trigger] text[j]),
        !is_white_space(text[v]),
    ensures
        skip_white_space(text, i) == v,
    decreases v - i,
{
    if i < v {
        assert(is_blank(text[i]));
        lemma_skips_blanks(text, i + 1, v);
    }
}

proof fn lemma_occurs(text: Seq<char>, key: Seq<char>, q: int)
    requires
        0 <= q,
    ensures
        occurs_at(text, quoted(key), q) == quoted_at(text, key, q),
{
    let n = key.len() as int;
    if q + n + 2 <= text.len() {
        let s = text.subrange(q, q + n + 2);
        if s == quoted(key) {
            assert(s[0] == '"' && s[n + 1] == '"');
            assert(text.subrange(q + 1, q + 1 + n) =~= key) by {
                assert forall|i: int| 0 <= i < n implies text.subrange(q + 1, q + 1 + n)[i]
                    == key[i] by {
                    assert(s[i + 1] == quoted(key)[i + 1]);
                }
            }
        }
        if quoted_at(text, key, q) {
            assert(s =~= quoted(key)) by {
                assert forall|i: int| 0 <= i < n + 2 implies s[i] == quoted(key)[i] by {
                    if 0 < i < n + 1 {
                        assert(text.subrange(q + 1, q + 1 + n)[i - 1] == key[i - 1]);
                    }
                }
            }
        }
    }
}

proof fn lemma_first_key(text: Seq<char>, key: Seq<char>, p: int, c: int, v: int, i: int)
    requires
        entry_at(text, key, p, c, v),
        0 <= i <= p,
    ensures
        find_key(text, quoted(key), i) == Some(p),
        colon_behind(text, quoted(key).len() as int, p) == c,
    decreases p - i,
{
    lemma_occurs(text, key, i);
    lemma_skips_blanks(text, p + key.len() + 2, c);
    if i < p {
        if occurs_at(text, quoted(key), i) {
            let j = i + key.len() + 2;
            assert(quoted_at(text, key, i));
            assert(j < text.len());
            lemma_skips_blanks(text, j, j);
        }
        lemma_first_key(text, key, p, c, v, i + 1);
    }
}

/// The value of a key starts behind its colon and the blanks that follow it. What is not white
/// space there is the value's first character.
pub proof fn law_value_found(text: Seq<char>, key: Seq<char>, p: int, c: int, v: int)
    requires
        entry_at(text, key, p, c, v),
        !is_white_space(text[v]),
    ensures
        value_start(text, key) == Some(v),
{
    lemma_first_key(text, key, p, c, v, 0);
    lemma_skips_blanks(text, c + 1, v);
}

proof fn lemma_no_key(text: Seq<char>, key: Seq<char>, i: int)
    requires
        0 <= i,
        forall|q: int| !#[trigger] quoted_at(text, key, q),
    ensures
        find_key(text, quoted(key), i) is None,
    decreases text.len() + 1 - i,
{
    if i <= text.len() {
        lemma_occurs(text, key, i);
        assert(!quoted_at(text, key, i));
        lemma_no_key(text, key, i + 1);
    }
}

/// A key that is nowhere in the text in quotes has no value: an integer takes its default, and
/// there is neither an object nor the text of a number.
pub proof fn law_missing_key(text: Seq<char>, key: Seq<char>, default: int)
    requires
        forall|q: int| !#[trigger] quoted_at(text, key, q),
    ensures
        int_value(text, key, default) == default,
        object_value(text, key) is None,
        number_text(text, key) is None,
{
    lemma_no_key(text, key, 0);
}

proof fn lemma_token(text: Seq<char>, v: int, i: int, e: int)
    requires
        0 <= v <= i <= e <= text.len(),
        forall|j: int| v <= j < e ==> !ends_number(#[trigger] text[j]),
        e < text.len() ==> ends_number(text[e]),
    ensures
        number_end(text, i) == e,
    decreases e - i,
{
    if i < e {
        assert(!ends_number(text[i]));
        lemma_token(text, v, i + 1, e);
    }
}

proof fn lemma_decimal_digits(n: int, i: int)
    requires
        0 <= n,
        0 <= i < decimal(n).len(),
    ensures
        '0' <= decimal(n)[i] <= '9',
    decreases n,
{
    if n >= 10 && i < decimal(n / 10).len() {
        lemma_decimal_digits(n / 10, i);
    }
}

proof fn lemma_decimal_value(n: int)
    requires
        0 <= n,
    ensures
        decimal(n).len() > 0,
        digits_value(decimal(n)) == Some(n),
    decreases n,
{
    if n >= 10 {
        lemma_decimal_value(n / 10);
        assert(decimal(n).drop_last() =~= decimal(n / 10));
        assert((n / 10) * 10 + n % 10 == n);
    } else {
        assert(decimal(n).drop_last() =~= Seq::<char>::empty());
        assert(digits_value(Seq::<char>::empty()) == Some(0int));
    }
}

/// Reading undoes writing: the decimal text of a 32-bit integer reads as that integer, with its
/// sign. Outside that range the text is no integer.
pub proof fn law_written_number(n: int)
    ensures
        parsed_int(signed_decimal(n)) == (if -0x8000_0000 <= n <= 0x7FFF_FFFF {
            Some(n)
        } else {
            None
        }),
{
    let s = signed_decimal(n);
    if n < 0 {
        lemma_decimal_value(-n);
        assert(s.skip(1) =~= decimal(-n));
        assert(s[0] == '-');
    } else {
        lemma_decimal_value(n);
        lemma_decimal_digits(n, 0);
    }
}

proof fn lemma_no_digits(s: Seq<char>, i: int)
    requires
        0 <= i < s.len(),
        !('0' <= s[i] <= '9'),
    ensures
        digits_value(s) is None,
    decreases s.len(),
{
    if i < s.len() - 1 {
        assert(s.drop_last()[i] == s[i]);
        lemma_no_digits(s.drop_last(), i);
    }
}

/// A text is no integer where it is empty, a sign alone, or holds anything but digits behind an
/// optional sign.
pub proof fn law_not_a_number(s: Seq<char>, i: int)
    ensures
        s.len() == 0 ==> parsed_int(s) is None,
        s.len() == 1 && (s[0] == '+' || s[0] == '-') ==> parsed_int(s) is None,
        0 <= i < s.len() && !('0' <= s[i] <= '9') && (i > 0 || (s[0] != '+' && s[0] != '-'))
            ==> parsed_int(s) is None,
{
    if 0 <= i < s.len() && !('0' <= s[i] <= '9') && (i > 0 || (s[0] != '+' && s[0] != '-')) {
        if s[0] == '+' || s[0] == '-' {
            assert(s.skip(1)[i - 1] == s[i]);
            lemma_no_digits(s.skip(1), i - 1);
        } else {
            lemma_no_digits(s, i);
        }
    }
}

/// An integer that stands as the value of a key, up to the text's end or what ends a number, is
/// read as that integer, whatever the default.
pub proof fn law_integer_read(
    text: Seq<char>,
    key: Seq<char>,
    p: int,
    c: int,
    v: int,
    n: int,
    default: int,
)
    requires
        -0x8000_0000 <= n <= 0x7FFF_FFFF,
        entry_at(text, key, p, c, v),
        v + signed_decimal(n).len() <= text.len(),
        text.subrange(v, v + signed_decimal(n).len()) == signed_decimal(n),
        v + signed_decimal(n).len() < text.len() ==> {
            let next = text[v + signed_decimal(n).len()];
            is_blank(next) || next == ',' || next == '}' || next == ']'
        },
    ensures
        int_value(text, key, default) == n,
{
    let s = signed_decimal(n);
    let e = v + s.len();
    let m = if n < 0 {
        -n
    } else {
        n
    };
    lemma_decimal_value(m);
    assert forall|i: int| 0 <= i < s.len() implies '0' <= #[trigger] s[i] <= '9' || (i == 0 && s[i]
        == '-') by {
        if n < 0 {
            if i > 0 {
                lemma_decimal_digits(m, i - 1);
                assert(s[i] == decimal(m)[i - 1]);
            }
        } else {
            lemma_decimal_digits(m, i);
        }
    }
    let t = text.subrange(v, e);
    assert forall|j: int| v <= j < e implies !ends_number(#[trigger] text[j]) by {
        assert(text[j] == t[j - v]);
        assert(t[j - v] == s[j - v]);
    }
    assert(text[v] == t[0]);
    assert(t[0] == s[0]);
    law_value_found(text, key, p, c, v);
    lemma_token(text, v, v, e);
    law_written_number(n);
}

/// The text of a number that stands as the value of a key is read as it stands.
pub proof fn law_number_text_read(
    text: Seq<char>,
    key: Seq<char>,
    p: int,
    c: int,
    v: int,
    e: int,
)
    requires
        entry_at(text, key, p, c, v),
        v < e <= text.len(),
        forall|j: int|
            v <= j < e ==> {
                let x = #[trigger] text[j];
                '0' <= x <= '9' || x == '.' || x == '-' || x == '+' || x == 'e' || x == 'E'
            },
        e < text.len() ==> {
            let next = text[e];
            is_blank(next) || next == ',' || next == '}' || next == ']'
        },
    ensures
        number_text(text, key) == Some(text.subrange(v, e)),
{
    assert forall|j: int| v <= j < e implies !ends_number(#[trigger] text[j]) by {}
    law_value_found(text, key, p, c, v);
    lemma_token(text, v, v, e);
    assert(!is_white_space(text[e - 1]));
}

/// How often a character stands in a text.
pub open spec fn count_of(s: Seq<char>, c: char) -> nat {
    s.filter(|x: char| x == c).len()
}

proof fn lemma_count_push(s: Seq<char>, x: char, c: char)
    ensures
        count_of(s.push(x), c) == count_of(s, c) + (if x == c {
            1nat
        } else {
            0nat
        }),
{
    reveal(Seq::filter);
    assert(s.push(x).drop_last() =~= s);
}

proof fn lemma_brace_scan(text: Seq<char>, v: int, e: int, i: int)
    requires
        0 <= v < i < e <= text.len(),
        text[v] == '{',
        forall|j: int|
            v < j < e ==> count_of(#[trigger] text.subrange(v, j), '{') > count_of(
                text.subrange(v, j),
                '}',
            ),
        count_of(text.subrange(v, e), '{') == count_of(text.subrange(v, e), '}'),
    ensures
        brace_end(
            text,
            i,
            count_of(text.subrange(v, i), '{') - count_of(text.subrange(v, i), '}'),
        ) == Some(e),
    decreases e - i,
{
    let s = text.subrange(v, i);
    let t = text.subrange(v, i + 1);
    assert(t =~= s.push(text[i]));
    lemma_count_push(s, text[i], '{');
    lemma_count_push(s, text[i], '}');
    if i + 1 < e {
        assert(count_of(t, '{') > count_of(t, '}'));
        lemma_brace_scan(text, v, e, i + 1);
    } else {
        assert(count_of(s, '{') > count_of(s, '}'));
    }
}

/// An object that stands as the value of a key is read whole: from its first brace to the brace
/// that closes it, the first place where as many braces were closed as opened.
pub proof fn law_object_read(
    text: Seq<char>,
    key: Seq<char>,
    p: int,
    c: int,
    v: int,
    e: int,
)
    requires
        entry_at(text, key, p, c, v),
        text[v] == '{',
        v < e <= text.len(),
        forall|j: int|
            v < j < e ==> count_of(#[trigger] text.subrange(v, j), '{') > count_of(
                text.subrange(v, j),
                '}',
            ),
        count_of(text.subrange(v, e), '{') == count_of(text.subrange(v, e), '}'),
    ensures
        object_value(text, key) == Some(text.subrange(v, e)),
{
    law_value_found(text, key, p, c, v);
    let none = text.subrange(v, v);
    let one = text.subrange(v, v + 1);
    assert(one =~= none.push('{'));
    lemma_count_push(none, '{', '{');
    lemma_count_push(none, '{', '}');
    reveal(Seq::filter);
    assert(none =~= Seq::<char>::empty());
    assert(count_of(none, '{') == 0 && count_of(none, '}') == 0);
    assert(v + 1 < e);
    lemma_brace_scan(text, v, e, v + 1);
}

/// The integer entries of the configuration, each with its default.
pub open spec fn config_ints(text: Seq<char>, c: ModelConfig) -> bool {
    &&& c.hidden_dim == int_value(text, "hidden_dim"@, 2048)
    &&& c.num_layers == int_value(text, "num_layers"@, 40)
    &&& c.num_attn_heads == int_value(text, "num_attn_heads"@, 16)
    &&& c.num_kv_heads == int_value(text, "num_kv_heads"@, 2)
    &&& c.vocab_size == int_value(text, "vocab_size"@, 248320)
    &&& c.num_experts == int_value(text, "num_experts"@, 256)
    &&& c.num_experts_per_tok == int_value(text, "num_experts_per_tok"@, 8)
    &&& c.moe_intermediate == int_value(text, "moe_intermediate"@, 512)
    &&& c.shared_intermediate == int_value(text, "shared_intermediate"@, 512)
    &&& c.linear_num_v_heads == int_value(text, "linear_num_v_heads"@, 32)
    &&& c.linear_num_k_heads == int_value(text, "linear_num_k_heads"@, 16)
    &&& c.rotary_dim == int_value(text, "rotary_dim"@, 64)
    &&& c.linear_total_key == int_value(text, "linear_total_key"@, 2048)
    &&& c.linear_total_value == int_value(text, "linear_total_value"@, 4096)
    &&& c.linear_conv_dim == int_value(text, "linear_conv_dim"@, 8192)
    &&& c.num_full_attn_layers == int_value(text, "num_full_attn_layers"@, 10)
    &&& c.num_linear_layers == int_value(text, "num_linear_layers"@, 30)
    &&& c.expert_size_4bit == int_value(text, "expert_size_4bit"@, 1769472)
    &&& c.expert_size_2bit == int_value(text, "expert_size_2bit"@, 983040)
    &&& c.head_dim == int_value(text, "head_dim"@, 256)
    &&& c.group_size == int_value(text, "group_size"@, 64)
    &&& c.full_attn_interval == int_value(text, "full_attn_interval"@, 4)
    &&& c.conv_kernel_size == int_value(text, "conv_kernel_size"@, 4)
    &&& c.max_seq_len == int_value(text, "max_seq_len"@, 1048576)
    &&& c.gpu_kv_seq == int_value(text, "gpu_kv_seq"@, 8192)
    &&& c.max_k == int_value(text, "max_k"@, 8)
    &&& c.linear_key_dim == int_value(text, "linear_key_dim"@, 128)
    &&& c.linear_value_dim == int_value(text, "linear_value_dim"@, 128)
}

/// A layout entry of the configuration; all zeros where the file has none.
pub open spec fn config_layout(text: Seq<char>, key: Seq<char>, l: ExpertLayoutTable) -> bool {
    match object_value(text, key) {
        Some(obj) => layout_of(obj, l),
        None => l == ExpertLayoutTable::zero(),
    }
}

/// The text of an optional string.
pub open spec fn opt_view(s: Option<String>) -> Option<Seq<char>> {
    match s {
        Some(t) => Some(t@),
        None => None,
    }
}

/// The message for a configuration that asks for more experts per token than there are slots.
pub open spec fn max_k_message(max_k: int) -> Seq<char> {
    "ERROR: model max_k="@ + signed_decimal(max_k) + " exceeds compile-time MAX_K="@ + decimal(
        MAX_K as int,
    )
}

/// Read the model's description from the text of its configuration file. Missing entries take
/// their defaults; the one error is a `max_k` above the number of expert slots.
pub fn load_config(text: &str) -> (r: Result<ModelConfig, String>)
    ensures
        match r {
            Ok(c) => {
                &&& int_value(text@, "max_k"@, 8) <= MAX_K
                &&& config_ints(text@, c)
                &&& config_layout(text@, "expert_layout_4bit"@, c.layout_4bit)
                &&& config_layout(text@, "expert_layout_2bit"@, c.layout_2bit)
                &&& opt_view(c.rms_norm_eps) == number_text(text@, "rms_norm_eps"@)
                &&& opt_view(c.rope_theta) == number_text(text@, "rope_theta"@)
            },
            Err(e) => int_value(text@, "max_k"@, 8) > MAX_K && e@ == max_k_message(
                int_value(text@, "max_k"@, 8),
            ),
        },
{
    let rms_norm_eps = json_float(text, "rms_norm_eps");
    let rope_theta = json_float(text, "rope_theta");
    let chars: Vec<char> = chars_of(text);
    let text = chars.as_slice();
    let max_k: i32 = json_int(text, "max_k", 8);
    if max_k > MAX_K as i32 {
        let mut e = String::from_str("ERROR: model max_k=");
        append_i64(&mut e, max_k as i64);
        e.append(" exceeds compile-time MAX_K=");
        append_usize(&mut e, MAX_K);
        return Err(e);
    }
    let layout_4bit = match json_layout(text, "expert_layout_4bit") {
        Some(l) => l,
        None => ExpertLayoutTable::default(),
    };
    let layout_2bit = match json_layout(text, "expert_layout_2bit") {
        Some(l) => l,
        None => ExpertLayoutTable::default(),
    };
    Ok(ModelConfig {
        hidden_dim: json_int(text, "hidden_dim", 2048),
        num_layers: json_int(text, "num_layers", 40),
        num_attn_heads: json_int(text, "num_attn_heads", 16),
        num_kv_heads: json_int(text, "num_kv_heads", 2),
        vocab_size: json_int(text, "vocab_size", 248320),
        num_experts: json_int(text, "num_experts", 256),
        num_experts_per_tok: json_int(text, "num_experts_per_tok", 8),
        moe_intermediate: json_int(text, "moe_intermediate", 512),
        shared_intermediate: json_int(text, "shared_intermediate", 512),
        linear_num_v_heads: json_int(text, "linear_num_v_heads", 32),
        linear_num_k_heads: json_int(text, "linear_num_k_heads", 16),
        rotary_dim: json_int(text, "rotary_dim", 64),
        linear_total_key: json_int(text, "linear_total_key", 2048),
        linear_total_value: json_int(text, "linear_total_value", 4096),
        linear_conv_dim: json_int(text, "linear_conv_dim", 8192),
        num_full_attn_layers: json_int(text, "num_full_attn_layers", 10),
        num_linear_layers: json_int(text, "num_linear_layers", 30),
        expert_size_4bit: json_int(text, "expert_size_4bit", 1769472),
        expert_size_2bit: json_int(text, "expert_size_2bit", 983040),
        head_dim: json_int(text, "head_dim", 256),
        group_size: json_int(text, "group_size", 64),
        full_attn_interval: json_int(text, "full_attn_interval", 4),
        conv_kernel_size: json_int(text, "conv_kernel_size", 4),
        max_seq_len: json_int(text, "max_seq_len", 1048576),
        gpu_kv_seq: json_int(text, "gpu_kv_seq", 8192),
        linear_key_dim: json_int(text, "linear_key_dim", 128),
        linear_value_dim: json_int(text, "linear_value_dim", 128),
        max_k,
        layout_4bit,
        layout_2bit,
        rms_norm_eps,
        rope_theta,
    })
}

/// What stands for the epsilon of the norms where the configuration has none.
pub open spec fn default_eps_text() -> Seq<char> {
    "1e-6"@
}

/// What stands for the base of the rotation where the configuration has none.
pub open spec fn default_theta_text() -> Seq<char> {
    "10000000"@
}

/// The text that was found, or the default's.
pub fn text_or(found: &Option<String>, default: &str) -> (r: String)
    ensures
        r@ == (match *found {
            Some(s) => s@,
            None => default@,
        }),
{
    match found {
        Some(s) => s.as_str().to_owned(),
        None => default.to_owned(),
    }
}

/// The epsilon of the norms as text: that of the configuration, or one millionth.
pub fn rms_norm_eps_text(c: &ModelConfig) -> (r: String)
    ensures
        r@ == (match c.rms_norm_eps {
            Some(s) => s@,
            None => default_eps_text(),
        }),
{
    text_or(&c.rms_norm_eps, "1e-6")
}

/// The base of the rotation as text: that of the configuration, or ten million.
pub fn rope_theta_text(c: &ModelConfig) -> (r: String)
    ensures
        r@ == (match c.rope_theta {
            Some(s) => s@,
            None => default_theta_text(),
        }),
{
    text_or(&c.rope_theta, "10000000")
}

/// The defaults fit together: a configuration that says nothing describes a model whose parts are
/// of the sizes that its other parts have.
pub proof fn law_defaults_fit_together(text: Seq<char>, c: ModelConfig)
    requires
        config_ints(text, c),
        forall|key: Seq<char>| #[trigger] value_start(text, key) is None,
    ensures
        c.hidden_dim == c.linear_total_key,
        c.linear_total_value == 2 * c.linear_total_key,
        c.linear_conv_dim == 2 * c.linear_total_key + c.linear_total_value,
        c.linear_total_key == c.linear_num_k_heads * c.linear_key_dim,
        c.linear_total_value == c.linear_num_v_heads * c.linear_value_dim,
        c.num_layers == c.num_full_attn_layers + c.num_linear_layers,
        c.num_layers == c.full_attn_interval * c.num_full_attn_layers,
        c.num_experts_per_tok == c.max_k,
        c.expert_size_4bit == 3 * (c.hidden_dim * c.moe_intermediate) / 2 + 3 * 4 * (c.hidden_dim
            * c.moe_intermediate / c.group_size as int),
        c.rotary_dim == c.head_dim / 4,
{
    let n = c.hidden_dim * c.moe_intermediate;
    assert(n == 1048576) by (nonlinear_arith)
        requires
            n == c.hidden_dim * c.moe_intermediate,
            c.hidden_dim == 2048,
            c.moe_intermediate == 512,
    ;
    assert(n / 64 == 16384);
}

} // verus!
