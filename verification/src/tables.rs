use vstd::prelude::*;

verus! {

pub const NEWLINE: u8 = 10;

pub const CARRIAGE_RETURN: u8 = 13;

pub const COMMA: u8 = 44;

pub const BAR: u8 = 124;

pub const PLUS: u8 = 43;

pub const MINUS: u8 = 45;

pub const DIGIT_ZERO: u8 = 48;

pub const DIGIT_NINE: u8 = 57;

/// The position of the first `sep` in `s`, or the length of `s` where it
/// has none.
pub open spec fn first_sep(s: Seq<u8>, sep: u8) -> int
    decreases s.len(),
{
    if s.len() == 0 || s[0] == sep {
        0
    } else {
        1 + first_sep(s.skip(1), sep)
    }
}

/// The pieces of `s` between its separators: one more than it has
/// separators, empty pieces included.
pub open spec fn pieces(s: Seq<u8>, sep: u8) -> Seq<Seq<u8>>
    decreases s.len(),
{
    let i = first_sep(s, sep);
    if i < 0 || i >= s.len() {
        seq![s]
    } else {
        seq![s.take(i)] + pieces(s.skip(i + 1), sep)
    }
}

/// A line without the carriage return at its end, if it has one.
pub open spec fn strip_cr(line: Seq<u8>) -> Seq<u8> {
    if line.len() > 0 && line.last() == CARRIAGE_RETURN {
        line.drop_last()
    } else {
        line
    }
}

/// The lines of a text: each ends at a newline, which is dropped together
/// with a carriage return before it; what follows the last newline is a
/// line too, unless nothing follows it.
pub open spec fn lines_of(text: Seq<u8>) -> Seq<Seq<u8>> {
    let parts = pieces(text, NEWLINE);
    let ended = Seq::new((parts.len() - 1) as nat, |i: int| strip_cr(parts[i]));
    if parts.last().len() == 0 {
        ended
    } else {
        ended.push(parts.last())
    }
}

/// Whether every byte is a decimal digit.
pub open spec fn all_digits(s: Seq<u8>) -> bool {
    forall|i: int| 0 <= i < s.len() ==> DIGIT_ZERO <= #[trigger] s[i] <= DIGIT_NINE
}

/// The number that decimal digits spell.
pub open spec fn digits_value(s: Seq<u8>) -> nat
    decreases s.len(),
{
    if s.len() == 0 {
        0
    } else {
        (10 * digits_value(s.drop_last()) + (s.last() - DIGIT_ZERO)) as nat
    }
}

/// The number that a field spells: digits, at least one, with nothing
/// around them.
pub open spec fn magnitude_of(s: Seq<u8>) -> Option<nat> {
    if s.len() > 0 && all_digits(s) {
        Some(digits_value(s))
    } else {
        None
    }
}

/// The number that a field spells with an optional sign before its
/// digits; a minus sign only where `negative_allowed`.
pub open spec fn signed_of(s: Seq<u8>, negative_allowed: bool) -> Option<int> {
    if s.len() > 0 && s[0] == PLUS {
        match magnitude_of(s.skip(1)) {
            Some(v) => Some(v as int),
            None => None,
        }
    } else if s.len() > 0 && s[0] == MINUS && negative_allowed {
        match magnitude_of(s.skip(1)) {
            Some(v) => Some(-(v as int)),
            None => None,
        }
    } else {
        match magnitude_of(s) {
            Some(v) => Some(v as int),
            None => None,
        }
    }
}

/// The number that a field spells, if it fits between `low` and `high`.
pub open spec fn number_in(s: Seq<u8>, low: int, high: int) -> Option<int> {
    match signed_of(s, low < 0) {
        Some(v) => if low <= v <= high {
            Some(v)
        } else {
            None
        },
        None => None,
    }
}

/// Whether a byte is white space by itself: a space, a tab, a line
/// feed, a vertical tab, a form feed or a carriage return.
pub open spec fn is_blank(byte: u8) -> bool {
    byte == 32 || (9 <= byte <= 13)
}

/// Whether two bytes encode a white space: the next-line mark U+0085 or
/// the no-break space U+00A0.
pub open spec fn is_blank_pair(a: u8, b: u8) -> bool {
    a == 0xC2 && (b == 0x85 || b == 0xA0)
}

/// Whether three bytes encode a white space: U+1680, one of U+2000 to
/// U+200A, U+2028, U+2029, U+202F, U+205F or U+3000.
pub open spec fn is_blank_triple(a: u8, b: u8, c: u8) -> bool {
    ||| a == 0xE1 && b == 0x9A && c == 0x80
    ||| a == 0xE2 && b == 0x80 && (0x80 <= c <= 0x8A || c == 0xA8 || c == 0xA9 || c == 0xAF)
    ||| a == 0xE2 && b == 0x81 && c == 0x9F
    ||| a == 0xE3 && b == 0x80 && c == 0x80
}

/// The number of bytes of the white space that `s` starts with, or 0
/// where it starts with none.
pub open spec fn blank_start(s: Seq<u8>) -> int {
    if s.len() >= 1 && is_blank(s[0]) {
        1
    } else if s.len() >= 2 && is_blank_pair(s[0], s[1]) {
        2
    } else if s.len() >= 3 && is_blank_triple(s[0], s[1], s[2]) {
        3
    } else {
        0
    }
}

/// The number of bytes of the white space that `s` ends with, or 0 where
/// it ends with none.
pub open spec fn blank_end(s: Seq<u8>) -> int {
    let n = s.len() as int;
    if n >= 1 && is_blank(s[n - 1]) {
        1
    } else if n >= 2 && is_blank_pair(s[n - 2], s[n - 1]) {
        2
    } else if n >= 3 && is_blank_triple(s[n - 3], s[n - 2], s[n - 1]) {
        3
    } else {
        0
    }
}

/// A field without the white space at its start.
pub open spec fn trim_start(s: Seq<u8>) -> Seq<u8>
    decreases s.len(),
{
    if blank_start(s) > 0 {
        trim_start(s.skip(blank_start(s)))
    } else {
        s
    }
}

/// A field without the white space at its end.
pub open spec fn trim_end(s: Seq<u8>) -> Seq<u8>
    decreases s.len(),
{
    if blank_end(s) > 0 {
        trim_end(s.take(s.len() - blank_end(s)))
    } else {
        s
    }
}

/// A field without the white space at its start and its end. White
/// space is every character that Unicode marks as such, in its UTF-8
/// encoding; on well-formed UTF-8 whole characters go and nothing else.
pub open spec fn trimmed(s: Seq<u8>) -> Seq<u8> {
    trim_end(trim_start(s))
}

/// The byte strings that a vector of vectors holds.
pub open spec fn rows(parts: Seq<Vec<u8>>) -> Seq<Seq<u8>> {
    Seq::new(parts.len(), |i: int| parts[i]@)
}

/// Where `s` has no separator before position `k`, and has one there or
/// ends there, its first separator is at `k`.
pub proof fn lemma_first_sep(s: Seq<u8>, sep: u8, k: int)
    requires
        0 <= k <= s.len(),
        forall|i: int| 0 <= i < k ==> s[i] != sep,
        k == s.len() || s[k] == sep,
    ensures
        first_sep(s, sep) == k,
    decreases k,
{
    if k > 0 {
        let rest = s.skip(1);
        assert forall|i: int| 0 <= i < k - 1 implies rest[i] != sep by {
            assert(rest[i] == s[i + 1]);
        }
        lemma_first_sep(rest, sep, k - 1);
    }
}

/// Splits `text` at every `sep`.
pub fn split(text: &[u8], sep: u8) -> (parts: Vec<Vec<u8>>)
    ensures
        rows(parts@) == pieces(text@, sep),
        parts@.len() >= 1,
{
    let mut parts: Vec<Vec<u8>> = Vec::new();
    let mut piece: Vec<u8> = Vec::new();
    let ghost mut start: int = 0;
    let mut i: usize = 0;
    assert(text@.skip(0) =~= text@);
    assert(rows(parts@) + pieces(text@.skip(0), sep) =~= pieces(text@, sep));
    while i < text.len()
        invariant
            0 <= start <= i <= text@.len(),
            piece@ == text@.subrange(start, i as int),
            forall|j: int| start <= j < i ==> text@[j] != sep,
            rows(parts@) + pieces(text@.skip(start), sep) == pieces(text@, sep),
        decreases text@.len() - i,
    {
        if text[i] == sep {
            proof {
                let tail = text@.skip(start);
                let k = i - start;
                assert forall|j: int| 0 <= j < k implies tail[j] != sep by {
                    assert(tail[j] == text@[start + j]);
                }
                lemma_first_sep(tail, sep, k);
                assert(tail.take(k) =~= piece@);
                assert(tail.skip(k + 1) =~= text@.skip(i as int + 1));
                assert(pieces(tail, sep) == seq![piece@] + pieces(text@.skip(i as int + 1), sep));
                assert(rows(parts@.push(piece)) =~= rows(parts@) + seq![piece@]);
                assert(rows(parts@.push(piece)) + pieces(text@.skip(i as int + 1), sep) =~= rows(
                    parts@,
                ) + pieces(tail, sep));
            }
            parts.push(piece);
            piece = Vec::new();
            proof {
                start = i as int + 1;
                assert(piece@ =~= text@.subrange(start, i as int + 1));
            }
        } else {
            piece.push(text[i]);
            assert(piece@ =~= text@.subrange(start, i as int + 1));
        }
        i += 1;
    }
    proof {
        let tail = text@.skip(start);
        let k = text@.len() - start;
        assert forall|j: int| 0 <= j < k implies tail[j] != sep by {
            assert(tail[j] == text@[start + j]);
        }
        lemma_first_sep(tail, sep, k);
        assert(tail =~= piece@);
        assert(pieces(tail, sep) == seq![piece@]);
        assert(rows(parts@.push(piece)) =~= rows(parts@) + seq![piece@]);
    }
    parts.push(piece);
    parts
}

/// Splits `text` into its lines.
pub fn lines(text: &[u8]) -> (found: Vec<Vec<u8>>)
    ensures
        rows(found@) == lines_of(text@),
{
    let mut parts = split(text, NEWLINE);
    let ghost whole = rows(parts@);
    let total = parts.len();
    let mut i: usize = 0;
    while i + 1 < total
        invariant
            total == parts@.len(),
            total == whole.len(),
            total >= 1,
            i + 1 <= total,
            forall|j: int| 0 <= j < i ==> (#[trigger] parts@[j])@ == strip_cr(whole[j]),
            forall|j: int| i <= j < total ==> (#[trigger] parts@[j])@ == whole[j],
        decreases total - i,
    {
        let len = parts[i].len();
        if len > 0 && parts[i][len - 1] == CARRIAGE_RETURN {
            parts[i].pop();
        }
        i += 1;
    }
    if parts[total - 1].len() == 0 {
        parts.pop();
    }
    assert(rows(parts@) =~= lines_of(text@));
    parts
}

/// Reads the digits of `field` from position `from` on as a number of at
/// most `limit`.
fn parse_digits(field: &[u8], from: usize, limit: u64) -> (value: Option<u64>)
    requires
        from <= field@.len(),
    ensures
        value == match magnitude_of(field@.skip(from as int)) {
            Some(v) => if v <= limit {
                Some(v as u64)
            } else {
                None
            },
            None => None::<u64>,
        },
{
    let ghost body = field@.skip(from as int);
    if from >= field.len() {
        return None;
    }
    let mut value: u64 = 0;
    let mut too_big = false;
    let mut i: usize = from;
    assert(body.take(0) =~= Seq::<u8>::empty());
    while i < field.len()
        invariant
            from <= i <= field@.len(),
            body == field@.skip(from as int),
            all_digits(body.take(i - from)),
            !too_big ==> value == digits_value(body.take(i - from)) && value <= limit,
            too_big ==> digits_value(body.take(i - from)) > limit,
        decreases field@.len() - i,
    {
        let byte = field[i];
        if byte < DIGIT_ZERO || byte > DIGIT_NINE {
            assert(body[i - from] == byte);
            assert(!all_digits(body));
            return None;
        }
        proof {
            let seen = body.take(i - from);
            let more = body.take(i - from + 1);
            assert(more.drop_last() =~= seen);
            assert(more.last() == byte);
            assert forall|j: int| 0 <= j < more.len() implies DIGIT_ZERO <= #[trigger] more[j]
                <= DIGIT_NINE by {
                if j < seen.len() {
                    assert(more[j] == seen[j]);
                }
            }
        }
        if !too_big {
            let digit = (byte - DIGIT_ZERO) as u64;
            let next: u128 = value as u128 * 10 + digit as u128;
            if next > limit as u128 {
                too_big = true;
            } else {
                value = next as u64;
            }
        }
        i += 1;
    }
    assert(body.take(body.len() as int) =~= body);
    if too_big {
        None
    } else {
        Some(value)
    }
}

/// Reads `field` as a decimal number between `low` and `high`: digits, at
/// least one, after an optional plus sign, or, where `low` is negative,
/// minus sign.
pub fn parse_number(field: &[u8], low: i64, high: i64) -> (value: Option<i64>)
    requires
        low <= 0 <= high,
    ensures
        value == match number_in(field@, low as int, high as int) {
            Some(v) => Some(v as i64),
            None => None::<i64>,
        },
{
    if field.len() > 0 && field[0] == MINUS && low < 0 {
        let limit: u64 = (-(low as i128)) as u64;
        match parse_digits(field, 1, limit) {
            Some(v) => Some((-(v as i128)) as i64),
            None => None,
        }
    } else if field.len() > 0 && field[0] == PLUS {
        match parse_digits(field, 1, high as u64) {
            Some(v) => Some(v as i64),
            None => None,
        }
    } else {
        assert(field@.skip(0) =~= field@);
        match parse_digits(field, 0, high as u64) {
            Some(v) => Some(v as i64),
            None => None,
        }
    }
}

/// Whether a byte is white space by itself.
fn blank(byte: u8) -> (found: bool)
    ensures
        found == is_blank(byte),
{
    byte == 32 || (9 <= byte && byte <= 13)
}

/// Whether two bytes encode a white space.
fn blank_pair(a: u8, b: u8) -> (found: bool)
    ensures
        found == is_blank_pair(a, b),
{
    a == 0xC2 && (b == 0x85 || b == 0xA0)
}

/// Whether three bytes encode a white space.
fn blank_triple(a: u8, b: u8, c: u8) -> (found: bool)
    ensures
        found == is_blank_triple(a, b, c),
{
    (a == 0xE1 && b == 0x9A && c == 0x80) || (a == 0xE2 && b == 0x80 && ((0x80 <= c && c <= 0x8A)
        || c == 0xA8 || c == 0xA9 || c == 0xAF)) || (a == 0xE2 && b == 0x81 && c == 0x9F) || (a
        == 0xE3 && b == 0x80 && c == 0x80)
}

/// The number of bytes of the white space that `field[from..to]` starts with.
fn blank_start_len(field: &[u8], from: usize, to: usize) -> (k: usize)
    requires
        from <= to <= field@.len(),
    ensures
        k == blank_start(field@.subrange(from as int, to as int)),
        from + k <= to,
{
    let ghost part = field@.subrange(from as int, to as int);
    if to - from >= 1 {
        assert(part[0] == field@[from as int]);
    }
    if to - from >= 2 {
        assert(part[1] == field@[from + 1]);
    }
    if to - from >= 3 {
        assert(part[2] == field@[from + 2]);
    }
    if to - from >= 1 && blank(field[from]) {
        1
    } else if to - from >= 2 && blank_pair(field[from], field[from + 1]) {
        2
    } else if to - from >= 3 && blank_triple(field[from], field[from + 1], field[from + 2]) {
        3
    } else {
        0
    }
}

/// The number of bytes of the white space that `field[from..to]` ends with.
fn blank_end_len(field: &[u8], from: usize, to: usize) -> (k: usize)
    requires
        from <= to <= field@.len(),
    ensures
        k == blank_end(field@.subrange(from as int, to as int)),
        from + k <= to,
{
    let ghost part = field@.subrange(from as int, to as int);
    if to - from >= 1 {
        assert(part[part.len() - 1] == field@[to - 1]);
    }
    if to - from >= 2 {
        assert(part[part.len() - 2] == field@[to - 2]);
    }
    if to - from >= 3 {
        assert(part[part.len() - 3] == field@[to - 3]);
    }
    if to - from >= 1 && blank(field[to - 1]) {
        1
    } else if to - from >= 2 && blank_pair(field[to - 2], field[to - 1]) {
        2
    } else if to - from >= 3 && blank_triple(field[to - 3], field[to - 2], field[to - 1]) {
        3
    } else {
        0
    }
}

/// Drops the white space at the start and the end of `field`.
pub fn trim(field: &[u8]) -> (kept: Vec<u8>)
    ensures
        kept@ == trimmed(field@),
{
    let len = field.len();
    let mut from: usize = 0;
    assert(field@.subrange(0, len as int) =~= field@);
    let mut k = blank_start_len(field, from, len);
    while k > 0
        invariant
            len == field@.len(),
            from + k <= len,
            k == blank_start(field@.subrange(from as int, len as int)),
            trim_start(field@) == trim_start(field@.subrange(from as int, len as int)),
        decreases len - from,
    {
        assert(field@.subrange(from as int, len as int).skip(k as int) =~= field@.subrange(
            from + k,
            len as int,
        ));
        from += k;
        k = blank_start_len(field, from, len);
    }
    let ghost body = field@.subrange(from as int, len as int);
    assert(trim_start(field@) == body);
    let mut to: usize = len;
    let mut k = blank_end_len(field, from, to);
    while k > 0
        invariant
            from + k <= to <= len,
            len == field@.len(),
            k == blank_end(field@.subrange(from as int, to as int)),
            trim_end(body) == trim_end(field@.subrange(from as int, to as int)),
        decreases to,
    {
        assert(field@.subrange(from as int, to as int).take(to - from - k) =~= field@.subrange(
            from as int,
            to - k,
        ));
        to -= k;
        k = blank_end_len(field, from, to);
    }
    assert(trim_end(body) == field@.subrange(from as int, to as int));
    let mut kept: Vec<u8> = Vec::with_capacity(to - from);
    let mut i: usize = from;
    while i < to
        invariant
            from <= i <= to <= field@.len(),
            kept@ == field@.subrange(from as int, i as int),
        decreases to - i,
    {
        kept.push(field[i]);
        assert(kept@ =~= field@.subrange(from as int, i as int + 1));
        i += 1;
    }
    kept
}

} // verus!
