//! Message splitting and text truncation on UTF-8 byte lengths.
use vstd::prelude::*;
use vstd::utf8::*;
use vstd::string::*;

verus! {

broadcast use vstd::seq_lib::group_seq_properties;

/// Longest piece, in bytes, that one Discord message may carry.
pub const MAX_MESSAGE_LENGTH: usize = 1900;

/// Index of the last newline byte in `w`, or -1 when there is none.
pub open spec fn last_newline(w: Seq<u8>) -> int
    decreases w.len(),
{
    if w.len() == 0 {
        -1
    } else if w.last() == 10u8 {
        w.len() - 1
    } else {
        last_newline(w.drop_last())
    }
}

/// Where the next piece of an over-long message ends: just after the last
/// newline within the first `MAX_MESSAGE_LENGTH` bytes, or at that limit.
pub open spec fn cut_point(b: Seq<u8>) -> int {
    let end = window_end(b);
    let nl = last_newline(b.take(end));
    if nl >= 0 { nl + 1 } else { end }
}

/// End of the window that the next piece is searched in.
pub open spec fn window_end(b: Seq<u8>) -> int {
    if b.len() < MAX_MESSAGE_LENGTH { b.len() as int } else { MAX_MESSAGE_LENGTH as int }
}

/// The pieces that the splitting loop produces from `b`.
pub open spec fn split_chunks(b: Seq<u8>) -> Seq<Seq<u8>>
    decreases b.len(),
{
    if b.len() == 0 {
        seq![]
    } else {
        let c = cut_point(b);
        if 0 < c <= b.len() {
            seq![b.take(c)] + split_chunks(b.skip(c))
        } else {
            seq![]
        }
    }
}

/// The pieces of a message, given as its UTF-8 bytes.
pub open spec fn spec_split_message(b: Seq<u8>) -> Seq<Seq<u8>> {
    if b.len() <= MAX_MESSAGE_LENGTH {
        seq![b]
    } else {
        split_chunks(b)
    }
}

/// Every window that the splitting loop slices ends on a character boundary.
pub open spec fn chunks_on_boundaries(b: Seq<u8>) -> bool
    decreases b.len(),
{
    if b.len() == 0 {
        true
    } else {
        let c = cut_point(b);
        &&& is_char_boundary(b, window_end(b))
        &&& (0 < c <= b.len() ==> chunks_on_boundaries(b.skip(c)))
    }
}

/// Splitting `b` slices no character in two.
pub open spec fn split_is_safe(b: Seq<u8>) -> bool {
    b.len() <= MAX_MESSAGE_LENGTH || chunks_on_boundaries(b)
}

pub proof fn lemma_last_newline(w: Seq<u8>)
    ensures
        -1 <= last_newline(w) < w.len(),
        last_newline(w) >= 0 ==> w[last_newline(w)] == 10u8,
        forall|i: int| last_newline(w) < i < w.len() ==> w[i] != 10u8,
    decreases w.len(),
{
    if w.len() > 0 && w.last() != 10u8 {
        let d = w.drop_last();
        lemma_last_newline(d);
        assert forall|i: int| last_newline(w) < i < w.len() implies w[i] != 10u8 by {
            if i < w.len() - 1 {
                assert(w[i] == d[i]);
            }
        }
    }
}

pub proof fn lemma_cut_point(b: Seq<u8>)
    requires
        b.len() > 0,
    ensures
        0 < cut_point(b) <= window_end(b) <= b.len(),
        window_end(b) <= MAX_MESSAGE_LENGTH,
        cut_point(b) < window_end(b) ==> b[cut_point(b) - 1] == 10u8,
{
    lemma_last_newline(b.take(window_end(b)));
}

/// In valid UTF-8, the byte after an ASCII byte starts a character.
proof fn lemma_boundary_after_ascii(b: Seq<u8>, p: int)
    requires
        valid_utf8(b),
        0 <= p < b.len(),
        is_leading_byte_width_1(b[p]),
    ensures
        is_char_boundary(b, p + 1),
    decreases b.len(),
{
    if p + 1 == b.len() {
        is_char_boundary_start_end_of_seq(b);
    } else {
        lemma_not_continuation_after_ascii(b, p);
        is_char_boundary_iff_not_is_continuation_byte(b, p + 1);
    }
}

proof fn lemma_not_continuation_after_ascii(b: Seq<u8>, p: int)
    requires
        valid_utf8(b),
        0 <= p,
        p + 1 < b.len(),
        is_leading_byte_width_1(b[p]),
    ensures
        !is_continuation_byte(b[p + 1]),
    decreases b.len(),
{
    let l = length_of_first_scalar(b);
    let rest = pop_first_scalar(b);
    assert(valid_first_scalar(b));
    assert(valid_utf8(rest));
    assert(rest.len() == b.len() - l);
    if p < l {
        assert(p == 0);
        assert(l == 1);
        assert(rest[0] == b[1]);
        assert(valid_first_scalar(rest));
    } else {
        assert(rest[p - l] == b[p]);
        assert(rest[p - l + 1] == b[p + 1]);
        lemma_not_continuation_after_ascii(rest, p - l);
    }
}

proof fn lemma_cut_is_found(rb: Seq<u8>, end: int, i: int, cut: int)
    requires
        valid_utf8(rb),
        rb.len() > 0,
        end == window_end(rb),
        0 <= i <= end,
        i == 0 || rb[i - 1] == 10u8,
        forall|j: int| i <= j < end ==> rb[j] != 10u8,
        cut == (if i == 0 { end } else { i }),
        is_char_boundary(rb, end),
    ensures
        cut == cut_point(rb),
        is_char_boundary(rb, cut),
{
    lemma_cut_point(rb);
    let w = rb.take(end);
    lemma_last_newline(w);
    if i > 0 {
        assert(w[i - 1] == 10u8);
    }
    if cut < end {
        lemma_boundary_after_ascii(rb, cut - 1);
    }
}

proof fn lemma_split_step(b: Seq<u8>, c: int)
    requires
        b.len() > 0,
        c == cut_point(b),
    ensures
        0 < c <= b.len(),
        split_chunks(b) == seq![b.take(c)] + split_chunks(b.skip(c)),
        chunks_on_boundaries(b) == (is_char_boundary(b, window_end(b)) && chunks_on_boundaries(b.skip(c))),
{
    lemma_cut_point(b);
}

/// Splits a message into pieces that fit in one Discord message, or `None`
/// where a window would end inside a character.
pub fn try_split_message(message: &str) -> (r: Option<Vec<String>>)
    ensures
        r is Some <==> split_is_safe(message.spec_bytes()),
        r matches Some(parts) ==> parts@.map_values(|p: String| encode_utf8(p@)) =~= spec_split_message(
            message.spec_bytes(),
        ),
{
    if message.as_bytes().len() <= MAX_MESSAGE_LENGTH {
        let mut v: Vec<String> = Vec::new();
        v.push(message.to_owned());
        proof {
            assert(v@.map_values(|p: String| encode_utf8(p@))[0] == message.spec_bytes());
        }
        return Some(v);
    }
    let ghost all = message.spec_bytes();
    let ghost mut done: Seq<Seq<u8>> = Seq::empty();
    let mut result: Vec<String> = Vec::new();
    let mut rest: &str = message;
    proof {
        encode_utf8_valid_utf8(message@);
    }
    while rest.as_bytes().len() > 0
        invariant
            all == message.spec_bytes(),
            all.len() > MAX_MESSAGE_LENGTH,
            valid_utf8(rest.spec_bytes()),
            chunks_on_boundaries(rest.spec_bytes()) == chunks_on_boundaries(all),
            result.len() == done.len(),
            forall|j: int| 0 <= j < done.len() ==> encode_utf8(#[trigger] result@[j]@) == done[j],
            done + split_chunks(rest.spec_bytes()) == split_chunks(all),
        decreases rest.spec_bytes().len(),
    {
        let ghost rb = rest.spec_bytes();
        let bytes = rest.as_bytes();
        let end: usize = if bytes.len() < MAX_MESSAGE_LENGTH { bytes.len() } else { MAX_MESSAGE_LENGTH };
        proof {
            lemma_cut_point(rb);
            lemma_split_step(rb, cut_point(rb));
        }
        if !rest.is_char_boundary(end) {
            return None;
        }
        let mut i: usize = end;
        while i > 0
            invariant
                0 <= i <= end,
                end == window_end(rb),
                bytes@ == rb,
                end <= rb.len(),
                forall|j: int| i <= j < end ==> rb[j] != 10u8,
            ensures
                i == 0 || rb[i - 1] == 10u8,
                forall|j: int| i <= j < end ==> rb[j] != 10u8,
            decreases i,
        {
            if bytes[i - 1] == 10u8 {
                break;
            }
            i = i - 1;
        }
        let cut: usize = if i == 0 { end } else { i };
        proof {
            lemma_cut_is_found(rb, end as int, i as int, cut as int);
        }
        let (part, tail) = rest.split_at(cut);
        let piece = part.to_owned();
        proof {
            valid_utf8_split(rb, cut as int);
            assert(done.push(rb.take(cut as int)) + split_chunks(rb.skip(cut as int))
                =~= done + split_chunks(rb));
            done = done.push(rb.take(cut as int));
        }
        result.push(piece);
        rest = tail;
    }
    proof {
        assert(rest.spec_bytes().len() == 0);
        assert(split_chunks(rest.spec_bytes()) =~= Seq::<Seq<u8>>::empty());
        assert(done + Seq::<Seq<u8>>::empty() =~= done);
        assert(done =~= split_chunks(all));
        let m = result@.map_values(|p: String| encode_utf8(p@));
        assert forall|j: int| 0 <= j < m.len() implies m[j] == done[j] by {
            assert(encode_utf8(result@[j]@) == done[j]);
        }
        assert(m =~= done);
    }
    Some(result)
}

/// Splits a message into pieces that fit in one Discord message, cutting
/// after the last newline of each window where there is one.
pub fn split_message(message: &str) -> (parts: Vec<String>)
    requires
        split_is_safe(message.spec_bytes()),
    ensures
        parts@.map_values(|p: String| encode_utf8(p@)) =~= spec_split_message(message.spec_bytes()),
{
    match try_split_message(message) {
        Some(parts) => parts,
        None => {
            // Ruled out by the precondition.
            proof {
                assert(false);
            }
            Vec::new()
        },
    }
}

/// The encoding of a concatenation is the concatenation of the encodings.
pub proof fn lemma_encode_concat(a: Seq<char>, b: Seq<char>)
    ensures
        encode_utf8(a + b) == encode_utf8(a) + encode_utf8(b),
    decreases a.len(),
{
    if a.len() == 0 {
        assert(a + b =~= b);
        assert(encode_utf8(a) + encode_utf8(b) =~= encode_utf8(b));
    } else {
        lemma_encode_concat(a.drop_first(), b);
        assert((a + b).drop_first() =~= a.drop_first() + b);
        assert((a + b)[0] == a[0]);
        assert(encode_utf8(a + b) =~= encode_utf8(a) + encode_utf8(b));
    }
}

/// Every character takes at least one byte.
pub proof fn lemma_encode_len(s: Seq<char>)
    ensures
        encode_utf8(s).len() >= s.len(),
    decreases s.len(),
{
    if s.len() > 0 {
        lemma_encode_len(s.drop_first());
    }
}

/// Largest character boundary of `b` that is at most `i`.
pub open spec fn floor_char_boundary(b: Seq<u8>, i: int) -> int
    decreases i,
{
    if i <= 0 {
        0
    } else if is_char_boundary(b, i) {
        i
    } else {
        floor_char_boundary(b, i - 1)
    }
}

/// `s` cut to at most `max` bytes, backing off to a character boundary,
/// with "..." appended when anything was cut.
pub open spec fn spec_truncate(s: Seq<char>, max: int) -> Seq<char> {
    let b = encode_utf8(s);
    if b.len() > max {
        decode_utf8(b.take(floor_char_boundary(b, max))) + "..."@
    } else {
        s
    }
}

proof fn lemma_floor_char_boundary(b: Seq<u8>, i: int)
    requires
        valid_utf8(b),
        i <= b.len(),
    ensures
        0 <= floor_char_boundary(b, i) <= if i < 0 { 0 } else { i },
        is_char_boundary(b, floor_char_boundary(b, i)),
    decreases i,
{
    if i <= 0 {
        is_char_boundary_start_end_of_seq(b);
    } else if !is_char_boundary(b, i) {
        lemma_floor_char_boundary(b, i - 1);
    }
}

/// The first `n` bytes of `s`, as a string, where `n` is a character boundary.
pub fn byte_prefix(s: &str, n: usize) -> (r: String)
    requires
        n <= s.spec_bytes().len(),
        is_char_boundary(s.spec_bytes(), n as int),
    ensures
        r@ == decode_utf8(s.spec_bytes().take(n as int)),
        encode_utf8(r@) == s.spec_bytes().take(n as int),
{
    let (head, _) = s.split_at(n);
    let r = head.to_owned();
    proof {
        encode_utf8_decode_utf8(r@);
    }
    r
}

/// Cuts `text` to at most `max` bytes on a character boundary and appends
/// "..." when it was longer.
pub fn truncate(text: &str, max: usize) -> (r: String)
    ensures
        r@ == spec_truncate(text@, max as int),
{
    let len = text.as_bytes().len();
    proof {
        encode_utf8_valid_utf8(text@);
    }
    if len > max {
        let mut end = max;
        proof {
            is_char_boundary_start_end_of_seq(text.spec_bytes());
        }
        while !text.is_char_boundary(end)
            invariant
                end <= max < len,
                len == text.spec_bytes().len(),
                valid_utf8(text.spec_bytes()),
                is_char_boundary(text.spec_bytes(), 0),
                floor_char_boundary(text.spec_bytes(), end as int)
                    == floor_char_boundary(text.spec_bytes(), max as int),
            decreases end,
        {
            end = end - 1;
        }
        let mut r = byte_prefix(text, end);
        r.append("...");
        r
    } else {
        text.to_owned()
    }
}

/// The digit character for `d`, which is below ten.
pub open spec fn digit_char(d: nat) -> char {
    if d == 0 { '0' } else if d == 1 { '1' } else if d == 2 { '2' } else if d == 3 { '3' }
    else if d == 4 { '4' } else if d == 5 { '5' } else if d == 6 { '6' } else if d == 7 { '7' }
    else if d == 8 { '8' } else { '9' }
}

/// Decimal notation of `n`, without sign or leading zeros.
pub open spec fn decimal(n: nat) -> Seq<char>
    decreases n,
{
    if n < 10 {
        seq![digit_char(n)]
    } else {
        decimal(n / 10).push(digit_char(n % 10))
    }
}

fn digit_str(d: u64) -> (s: &'static str)
    requires
        d < 10,
    ensures
        s@ == seq![digit_char(d as nat)],
{
    proof {
        reveal_strlit("0");
        reveal_strlit("1");
        reveal_strlit("2");
        reveal_strlit("3");
        reveal_strlit("4");
        reveal_strlit("5");
        reveal_strlit("6");
        reveal_strlit("7");
        reveal_strlit("8");
        reveal_strlit("9");
    }
    let s = if d == 0 { "0" } else if d == 1 { "1" } else if d == 2 { "2" } else if d == 3 { "3" }
    else if d == 4 { "4" } else if d == 5 { "5" } else if d == 6 { "6" } else if d == 7 { "7" }
    else if d == 8 { "8" } else { "9" };
    proof {
        assert(s@ =~= seq![digit_char(d as nat)]);
    }
    s
}

/// Decimal notation of `n`.
pub fn decimal_string(n: u64) -> (s: String)
    ensures
        s@ == decimal(n as nat),
    decreases n,
{
    if n < 10 {
        String::from_str(digit_str(n))
    } else {
        let mut s = decimal_string(n / 10);
        s.append(digit_str(n % 10));
        s
    }
}

/// Value of a decimal digit character.
pub open spec fn digit_value(c: char) -> nat {
    (c as nat - '0' as nat) as nat
}

/// Whether every character of `s` is an ASCII digit.
pub open spec fn all_digits(s: Seq<char>) -> bool {
    forall|i: int| 0 <= i < s.len() ==> '0' <= #[trigger] s[i] && s[i] <= '9'
}

/// Value of a string of decimal digits.
pub open spec fn digits_value(s: Seq<char>) -> nat
    decreases s.len(),
{
    if s.len() == 0 {
        0
    } else {
        digits_value(s.drop_last()) * 10 + digit_value(s.last())
    }
}

/// What `str::parse::<u64>` gives: an optional `+`, then at least one
/// decimal digit, with a value that fits in 64 bits.
pub open spec fn spec_parse_u64(s: Seq<char>) -> Option<u64> {
    let d = if s.len() > 0 && s[0] == '+' { s.drop_first() } else { s };
    if d.len() > 0 && all_digits(d) && digits_value(d) <= u64::MAX {
        Some(digits_value(d) as u64)
    } else {
        None
    }
}

proof fn lemma_digits_value_grows(s: Seq<char>, i: int)
    requires
        0 <= i <= s.len(),
        all_digits(s),
    ensures
        digits_value(s.take(i)) <= digits_value(s),
    decreases s.len() - i,
{
    if i < s.len() {
        lemma_digits_value_grows(s, i + 1);
        assert(s.take(i + 1).drop_last() =~= s.take(i));
    } else {
        assert(s.take(i) =~= s);
    }
}

/// Parses a decimal unsigned integer as `str::parse::<u64>` does.
pub fn parse_u64(s: &str) -> (r: Option<u64>)
    ensures
        r == spec_parse_u64(s@),
{
    let cs = crate::text::chars_of(s);
    let start: usize = if cs.len() > 0 && cs[0] == '+' { 1 } else { 0 };
    let ghost d = if cs@.len() > 0 && cs@[0] == '+' { cs@.drop_first() } else { cs@ };
    proof {
        assert(d =~= cs@.skip(start as int));
    }
    if start >= cs.len() {
        return None;
    }
    let mut value: u64 = 0;
    let mut i = start;
    while i < cs.len()
        invariant
            start <= i <= cs.len(),
            cs@ == s@,
            d == (if s@.len() > 0 && s@[0] == '+' { s@.drop_first() } else { s@ }),
            d.len() > 0,
            d == cs@.skip(start as int),
            forall|k: int| 0 <= k < i - start ==> '0' <= #[trigger] d[k] && d[k] <= '9',
            value as nat == digits_value(d.take(i - start)),
        decreases cs.len() - i,
    {
        let c = cs[i];
        if c < '0' || c > '9' {
            proof {
                assert(d[i - start] == c);
                assert(!all_digits(d));
            }
            return None;
        }
        let digit = (c as u32 - '0' as u32) as u64;
        proof {
            assert(d.take(i - start + 1).drop_last() =~= d.take(i - start));
            assert(d.take(i - start + 1).last() == c);
        }
        let next = match value.checked_mul(10) {
            Some(t) => t.checked_add(digit),
            None => None,
        };
        match next {
            Some(v) => {
                value = v;
            },
            None => {
                proof {
                    assert(digit == digit_value(c));
                    assert(digits_value(d.take(i - start + 1)) == value * 10 + digit);
                    assert(value * 10 + digit > u64::MAX);
                    assert(digits_value(d.take(i - start + 1)) > u64::MAX) by (nonlinear_arith)
                        requires
                            digits_value(d.take(i - start + 1)) == value * 10 + digit,
                            value * 10 + digit > u64::MAX,
                    ;
                    if all_digits(d) {
                        lemma_digits_value_grows(d, i - start + 1);
                    }
                }
                return None;
            },
        }
        i = i + 1;
    }
    proof {
        assert(d.take(i - start) =~= d);
    }
    Some(value)
}

/// Splitting loses nothing: the pieces, put back together, are the message.
pub proof fn lemma_split_keeps_text(b: Seq<u8>)
    ensures
        spec_split_message(b).flatten() == b,
{
    if b.len() <= MAX_MESSAGE_LENGTH {
        seq![b].lemma_flatten_one_element();
    } else {
        lemma_chunks_keep_text(b);
    }
}

proof fn lemma_chunks_keep_text(b: Seq<u8>)
    ensures
        split_chunks(b).flatten() == b,
    decreases b.len(),
{
    if b.len() > 0 {
        let c = cut_point(b);
        lemma_cut_point(b);
        lemma_chunks_keep_text(b.skip(c));
        let rest = split_chunks(b.skip(c));
        assert((seq![b.take(c)] + rest).drop_first() =~= rest);
        assert(b.take(c) + b.skip(c) =~= b);
    } else {
        assert(split_chunks(b) =~= Seq::<Seq<u8>>::empty());
        assert(b =~= Seq::<u8>::empty());
    }
}

/// Every piece fits in one message: a long message is cut into non-empty
/// pieces of at most `MAX_MESSAGE_LENGTH` bytes.
pub proof fn lemma_split_pieces_fit(b: Seq<u8>)
    ensures
        forall|i: int| 0 <= i < spec_split_message(b).len()
            ==> (#[trigger] spec_split_message(b)[i]).len() <= MAX_MESSAGE_LENGTH,
        b.len() > 0 ==> forall|i: int| 0 <= i < spec_split_message(b).len()
            ==> (#[trigger] spec_split_message(b)[i]).len() > 0,
        b.len() <= MAX_MESSAGE_LENGTH ==> spec_split_message(b) == seq![b],
        b.len() > MAX_MESSAGE_LENGTH ==> spec_split_message(b).len() >= 2,
{
    if b.len() > MAX_MESSAGE_LENGTH {
        lemma_chunks_fit(b);
        let c = cut_point(b);
        lemma_cut_point(b);
        lemma_split_step(b, c);
        lemma_split_step(b.skip(c), cut_point(b.skip(c)));
    }
}

/// The UTF-8 encoding of ASCII text has one byte per character, and every
/// index is a character boundary.
pub proof fn lemma_ascii_boundaries(s: Seq<char>)
    requires
        is_ascii_chars(s),
    ensures
        encode_utf8(s).len() == s.len(),
        forall|i: int| 0 <= i <= s.len() ==> #[trigger] is_char_boundary(encode_utf8(s), i),
{
    let b = encode_utf8(s);
    is_ascii_chars_encode_utf8(s);
    is_ascii_chars_nat_bound(s);
    encode_utf8_valid_utf8(s);
    is_char_boundary_start_end_of_seq(b);
    assert forall|i: int| 0 <= i <= s.len() implies #[trigger] is_char_boundary(b, i) by {
        if 0 < i < s.len() {
            is_char_boundary_iff_not_is_continuation_byte(b, i);
            assert(s[i] as u8 == b[i]);
            assert((s[i] as nat) < 128);
        }
    }
}

/// Cutting ASCII text at `c` cuts its encoding at `c`.
pub proof fn lemma_ascii_skip(s: Seq<char>, c: int)
    requires
        is_ascii_chars(s),
        0 <= c <= s.len(),
    ensures
        is_ascii_chars(s.skip(c)),
        encode_utf8(s).skip(c) == encode_utf8(s.skip(c)),
        encode_utf8(s).take(c) == encode_utf8(s.take(c)),
{
    let x = s.take(c);
    let y = s.skip(c);
    assert(x + y =~= s);
    lemma_encode_concat(x, y);
    assert(is_ascii_chars(x));
    assert(is_ascii_chars(y));
    lemma_ascii_boundaries(x);
    assert(encode_utf8(s).skip(c) =~= encode_utf8(y));
    assert(encode_utf8(s).take(c) =~= encode_utf8(x));
}

proof fn lemma_ascii_chunks(s: Seq<char>)
    requires
        is_ascii_chars(s),
    ensures
        chunks_on_boundaries(encode_utf8(s)),
    decreases s.len(),
{
    let b = encode_utf8(s);
    lemma_ascii_boundaries(s);
    if b.len() > 0 {
        let c = cut_point(b);
        lemma_split_step(b, c);
        assert(is_char_boundary(b, window_end(b)));
        lemma_ascii_skip(s, c);
        lemma_ascii_chunks(s.skip(c));
    }
}

/// ASCII text never has a character cut in two: splitting it always works.
pub proof fn lemma_ascii_split_safe(s: Seq<char>)
    requires
        is_ascii_chars(s),
    ensures
        split_is_safe(encode_utf8(s)),
{
    lemma_ascii_chunks(s);
}

proof fn lemma_chunks_fit(b: Seq<u8>)
    ensures
        forall|i: int| 0 <= i < split_chunks(b).len()
            ==> 0 < (#[trigger] split_chunks(b)[i]).len() <= MAX_MESSAGE_LENGTH,
    decreases b.len(),
{
    if b.len() > 0 {
        let c = cut_point(b);
        lemma_cut_point(b);
        lemma_chunks_fit(b.skip(c));
        let rest = split_chunks(b.skip(c));
        assert forall|i: int| 0 <= i < split_chunks(b).len()
            implies 0 < (#[trigger] split_chunks(b)[i]).len() <= MAX_MESSAGE_LENGTH by {
            if i > 0 {
                assert(split_chunks(b)[i] == rest[i - 1]);
            }
        }
    }
}

/// A cut text takes at most `max` bytes plus the three of "...", and a
/// text that fits is left as it is.
pub proof fn lemma_truncate_fits(s: Seq<char>, max: int)
    requires
        max >= 0,
    ensures
        encode_utf8(spec_truncate(s, max)).len() <= max + 3,
        encode_utf8(s).len() <= max ==> spec_truncate(s, max) == s,
{
    let b = encode_utf8(s);
    if b.len() > max {
        encode_utf8_valid_utf8(s);
        lemma_floor_char_boundary(b, max);
        let k = floor_char_boundary(b, max);
        valid_utf8_split(b, k);
        decode_utf8_encode_utf8(b.take(k));
        reveal_strlit("...");
        lemma_encode_concat(decode_utf8(b.take(k)), "..."@);
        assert(encode_utf8("..."@).len() == 3) by {
            reveal_with_fuel(encode_utf8, 4);
            assert("..."@.drop_first().drop_first().drop_first() =~= Seq::<char>::empty());
        }
    }
}

/// Reading a number's decimal notation gives the number back.
pub proof fn lemma_parse_decimal(n: u64)
    ensures
        spec_parse_u64(decimal(n as nat)) == Some(n),
{
    lemma_decimal_digits(n as nat);
}

proof fn lemma_decimal_digits(n: nat)
    ensures
        decimal(n).len() > 0,
        all_digits(decimal(n)),
        digits_value(decimal(n)) == n,
        decimal(n)[0] != '+',
    decreases n,
{
    if n >= 10 {
        lemma_decimal_digits(n / 10);
        let d = decimal(n);
        assert(d.drop_last() =~= decimal(n / 10));
        assert(d.last() == digit_char(n % 10));
        lemma_digit_char_value(n % 10);
        assert(d[0] == decimal(n / 10)[0]);
        assert(digits_value(d) == digits_value(decimal(n / 10)) * 10 + digit_value(d.last()));
        assert(n == (n / 10) * 10 + n % 10);
    } else {
        let d = decimal(n);
        lemma_digit_char_value(n);
        assert(d.drop_last() =~= Seq::<char>::empty());
        assert(digits_value(d) == digits_value(d.drop_last()) * 10 + digit_value(d.last()));
        assert(digits_value(Seq::<char>::empty()) == 0);
    }
}

proof fn lemma_digit_char_value(d: nat)
    requires
        d < 10,
    ensures
        digit_value(digit_char(d)) == d,
        '0' <= digit_char(d) <= '9',
{
}

} // verus!
