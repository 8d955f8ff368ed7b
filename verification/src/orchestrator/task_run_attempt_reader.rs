//! Recording what a command writes, one stream at a time.
//!
//! A read hands over whatever bytes were in the pipe, which may end in the middle of a
//! character. What is complete is recorded at once; an unfinished character is carried over
//! to the next read.
use crate::models::TaskRunAttemptOutputStream;
use crate::text::{
    all_together, boundary_until, byte_len, decimal, decimal_u64, parts_keep_their_order,
    previous_boundary, split_at_byte, up_to_byte,
};
use vstd::prelude::*;
use vstd::slice::*;
use vstd::string::*;
use vstd::utf8::*;

verus! {

/// The most bytes of one stream of one attempt that are recorded, unless configured
/// otherwise.
pub const MAX_STREAM_BYTES: usize = 1024 * 1024;

/// What stands for bytes that are not text.
pub const REPLACEMENT: char = '\u{fffd}';

/// One piece of one stream, already text.
#[derive(Clone, Debug)]
pub struct TaskRunAttemptOutputChunk {
    pub stream: TaskRunAttemptOutputStream,
    pub content: String,
}

/// Where bytes stop being text.
#[derive(Clone, Copy, Debug)]
pub struct Utf8Flaw {
    /// How many bytes before the flaw are text.
    pub valid_up_to: usize,
    /// Whether the bytes merely end too early.
    pub ends_early: bool,
}

/// How many of the first bytes are whole characters.
pub open spec fn valid_len(bytes: Seq<u8>) -> int
    decreases bytes.len(),
{
    if bytes.len() > 0 && valid_first_scalar(bytes) {
        length_of_first_scalar(bytes) + valid_len(pop_first_scalar(bytes))
    } else {
        0
    }
}

/// Whether more bytes could make some bytes a text.
#[verifier::opaque]
pub open spec fn can_become_text(bytes: Seq<u8>) -> bool {
    exists|more: Seq<u8>| #[trigger] valid_utf8(bytes + more)
}

/// Checks bytes with `core::str::from_utf8`.
///
/// It accepts exactly the bytes that encode a text, and hands that text out. Of others it
/// tells the longest prefix that encodes one, by `Utf8Error::valid_up_to`, and whether the
/// input ended unexpectedly behind it, by `Utf8Error::error_len`, which is `None` then: within
/// three bytes of the end, and where more bytes could still make it a text.
#[verifier::external_body]
fn check_utf8(bytes: &[u8]) -> (r: Result<&str, Utf8Flaw>)
    ensures
        match r {
            Ok(text) => valid_utf8(bytes@) && text.spec_bytes() == bytes@,
            Err(flaw) => {
                &&& flaw.valid_up_to < bytes@.len()
                &&& valid_utf8(bytes@.take(flaw.valid_up_to as int))
                &&& forall|n: int|
                    flaw.valid_up_to < n <= bytes@.len() ==> !valid_utf8(#[trigger] bytes@.take(n))
                &&& flaw.ends_early <==> can_become_text(bytes@)
                &&& flaw.ends_early ==> bytes@.len() <= flaw.valid_up_to + 3
            },
        },
{
    match core::str::from_utf8(bytes) {
        Ok(text) => Ok(text),
        Err(e) => Err(
            Utf8Flaw { valid_up_to: e.valid_up_to(), ends_early: e.error_len().is_none() },
        ),
    }
}

/// Tells whether more bytes could make the first so many bytes a text.
fn is_start_of_text(bytes: &[u8], n: usize) -> (b: bool)
    requires
        n <= bytes@.len(),
    ensures
        b == can_become_text(bytes@.take(n as int)),
{
    let start = slice_subrange(bytes, 0, n);
    assert(start@ =~= bytes@.take(n as int));
    match check_utf8(start) {
        Ok(_) => {
            proof {
                lemma_text_is_text(start@);
            }
            true
        },
        Err(flaw) => flaw.ends_early,
    }
}

proof fn lemma_text_is_text(bytes: Seq<u8>)
    requires
        valid_utf8(bytes),
    ensures
        can_become_text(bytes),
{
    reveal(can_become_text);
    assert(bytes + Seq::<u8>::empty() =~= bytes);
    assert(valid_utf8(bytes + Seq::<u8>::empty()));
}

/// The length of the longest start of the first so many bytes that more bytes could make a
/// text.
pub open spec fn hopeful_len(bytes: Seq<u8>, n: nat) -> nat
    decreases n,
{
    if n == 0 {
        0
    } else if can_become_text(bytes.take(n as int)) {
        n
    } else {
        hopeful_len(bytes, (n - 1) as nat)
    }
}

/// How many bytes a flaw takes up, of bytes that begin with it: as many as could still have
/// become a text, and one if not even the first could.
pub open spec fn flaw_len(bytes: Seq<u8>) -> nat {
    let n = hopeful_len(bytes, bytes.len());
    if n == 0 {
        1
    } else {
        n
    }
}

proof fn lemma_start_can_become_text(bytes: Seq<u8>, n: int)
    requires
        0 <= n <= bytes.len(),
        can_become_text(bytes),
    ensures
        can_become_text(bytes.take(n)),
{
    reveal(can_become_text);
    let more = choose|more: Seq<u8>| #[trigger] valid_utf8(bytes + more);
    assert(bytes.take(n) + (bytes.skip(n) + more) =~= bytes + more);
    assert(valid_utf8(bytes.take(n) + (bytes.skip(n) + more)));
}

proof fn lemma_hopeful_len(bytes: Seq<u8>, n: nat)
    requires
        n <= bytes.len(),
    ensures
        hopeful_len(bytes, n) <= n,
        !can_become_text(bytes.take(n as int)) && n > 0 ==> hopeful_len(bytes, n) < n,
    decreases n,
{
    if n > 0 {
        lemma_hopeful_len(bytes, (n - 1) as nat);
    }
}

/// Hope ends with the first start that is hopeless.
proof fn lemma_hope_ends(bytes: Seq<u8>, k: nat, n: nat)
    requires
        k < n <= bytes.len(),
        k == 0 || can_become_text(bytes.take(k as int)),
        !can_become_text(bytes.take(k as int + 1)),
    ensures
        hopeful_len(bytes, n) == k,
    decreases n,
{
    if can_become_text(bytes.take(n as int)) {
        lemma_start_can_become_text(bytes.take(n as int), k as int + 1);
        assert(bytes.take(n as int).take(k as int + 1) =~= bytes.take(k as int + 1));
    }
    if n == k + 1 {
        if k > 0 {
            assert(hopeful_len(bytes, k) == k);
        }
    } else {
        lemma_hope_ends(bytes, k, (n - 1) as nat);
    }
}

/// Counts the bytes that a flaw takes up.
fn measure_flaw(bytes: &[u8]) -> (n: usize)
    requires
        !can_become_text(bytes@),
    ensures
        n == flaw_len(bytes@),
        0 < n <= bytes@.len(),
{
    let length: usize = bytes.len();
    let mut k: usize = 0;
    proof {
        lemma_nothing_can_become_text();
        assert(bytes@.take(bytes@.len() as int) =~= bytes@);
        assert(bytes@.len() > 0) by {
            if bytes@.len() == 0 {
                assert(bytes@ =~= Seq::empty());
            }
        }
    }
    while is_start_of_text(bytes, k + 1)
        invariant
            k < length,
            length == bytes@.len(),
            !can_become_text(bytes@),
            bytes@.take(bytes@.len() as int) == bytes@,
            k == 0 || can_become_text(bytes@.take(k as int)),
        decreases length - k,
    {
        k = k + 1;
    }
    proof {
        lemma_hope_ends(bytes@, k as nat, bytes@.len());
    }
    if k == 0 {
        1
    } else {
        k
    }
}

proof fn lemma_nothing_can_become_text()
    ensures
        can_become_text(Seq::empty()),
{
    lemma_text_is_text(Seq::empty());
}

/// A flaw takes up at least one byte, and none past the end.
proof fn lemma_flaw_len(bytes: Seq<u8>)
    requires
        !can_become_text(bytes),
    ensures
        0 < flaw_len(bytes) <= bytes.len(),
{
    lemma_nothing_can_become_text();
    if bytes.len() == 0 {
        assert(bytes =~= Seq::empty());
    }
    lemma_hopeful_len(bytes, bytes.len());
}

/// What bytes say as a text, flaws replaced, and which of the last bytes wait for more.
pub open spec fn decoded(bytes: Seq<u8>) -> (Seq<char>, Seq<u8>)
    decreases bytes.len(),
    via decoded_ends
{
    let n = valid_len(bytes);
    let text = decode_utf8(bytes.take(n));
    let rest = bytes.skip(n);
    if can_become_text(rest) {
        (text, rest)
    } else {
        let behind = decoded(rest.skip(flaw_len(rest) as int));
        (text.push(REPLACEMENT) + behind.0, behind.1)
    }
}

#[via_fn]
proof fn decoded_ends(bytes: Seq<u8>) {
    lemma_valid_len(bytes);
    let rest = bytes.skip(valid_len(bytes));
    if !can_become_text(rest) {
        lemma_flaw_len(rest);
    }
}

proof fn lemma_decode_concat(a: Seq<u8>, b: Seq<u8>)
    requires
        valid_utf8(a),
        valid_utf8(b),
    ensures
        valid_utf8(a + b),
        decode_utf8(a + b) == decode_utf8(a) + decode_utf8(b),
    decreases a.len(),
{
    valid_utf8_concat(a, b);
    if a.len() == 0 {
        assert(a + b =~= b);
        assert(decode_utf8(a) + decode_utf8(b) =~= decode_utf8(b));
    } else {
        assert(pop_first_scalar(a + b) =~= pop_first_scalar(a) + b);
        lemma_decode_concat(pop_first_scalar(a), b);
        assert(decode_utf8(a + b) =~= decode_utf8(a) + decode_utf8(b));
    }
}

proof fn lemma_valid_len(bytes: Seq<u8>)
    ensures
        0 <= valid_len(bytes) <= bytes.len(),
        valid_utf8(bytes.take(valid_len(bytes))),
        forall|n: int|
            valid_len(bytes) < n <= bytes.len() ==> !valid_utf8(#[trigger] bytes.take(n)),
    decreases bytes.len(),
{
    if bytes.len() > 0 && valid_first_scalar(bytes) {
        let width = length_of_first_scalar(bytes);
        let rest = pop_first_scalar(bytes);
        lemma_valid_len(rest);
        let n = valid_len(bytes);
        assert(pop_first_scalar(bytes.take(n)) =~= rest.take(n - width));
        assert(valid_first_scalar(bytes.take(n)));
        assert forall|m: int| n < m <= bytes.len() implies !valid_utf8(#[trigger] bytes.take(m)) by {
            assert(pop_first_scalar(bytes.take(m)) =~= rest.take(m - width));
        }
    } else {
        assert(bytes.take(0) =~= Seq::empty());
        assert forall|m: int| 0 < m <= bytes.len() implies !valid_utf8(#[trigger] bytes.take(m)) by {
            if valid_utf8(bytes.take(m)) {
                assert(valid_first_scalar(bytes.take(m)));
                assert(valid_first_scalar(bytes));
            }
        }
    }
}

proof fn lemma_valid_prefix(text: Seq<u8>, bytes: Seq<u8>)
    requires
        valid_utf8(text),
    ensures
        valid_len(text + bytes) == text.len() + valid_len(bytes),
    decreases text.len(),
{
    if text.len() == 0 {
        assert(text + bytes =~= bytes);
    } else {
        assert(pop_first_scalar(text + bytes) =~= pop_first_scalar(text) + bytes);
        assert(valid_first_scalar(text + bytes));
        lemma_valid_prefix(pop_first_scalar(text), bytes);
    }
}

/// Bytes behind a text can become one exactly if they can with the text before them.
proof fn lemma_can_become_text_behind(text: Seq<u8>, bytes: Seq<u8>)
    requires
        valid_utf8(text),
    ensures
        can_become_text(text + bytes) == can_become_text(bytes),
{
    reveal(can_become_text);
    if can_become_text(bytes) {
        let more = choose|more: Seq<u8>| #[trigger] valid_utf8(bytes + more);
        valid_utf8_concat(text, bytes + more);
        assert(text + (bytes + more) =~= (text + bytes) + more);
        assert(valid_utf8((text + bytes) + more));
    }
    if can_become_text(text + bytes) {
        let more = choose|more: Seq<u8>| #[trigger] valid_utf8((text + bytes) + more);
        let all = (text + bytes) + more;
        assert(all.subrange(0, text.len() as int) =~= text);
        assert(all.subrange(text.len() as int, all.len() as int) =~= bytes + more);
        if !valid_utf8(bytes + more) {
            partial_valid_partial_invalid_utf8(all, text.len() as int);
        }
        assert(valid_utf8(bytes + more));
    }
}

/// Bytes that encode a text say it, whatever stands behind them.
proof fn lemma_decoded_behind(text: Seq<u8>, bytes: Seq<u8>)
    requires
        valid_utf8(text),
    ensures
        decoded(text + bytes) == (decode_utf8(text) + decoded(bytes).0, decoded(bytes).1),
{
    let all = text + bytes;
    let n = valid_len(bytes);
    lemma_valid_len(bytes);
    lemma_valid_prefix(text, bytes);
    assert(all.take(text.len() + n) =~= text + bytes.take(n));
    lemma_decode_concat(text, bytes.take(n));
    let rest = bytes.skip(n);
    assert(all.skip(text.len() + n) =~= rest);
    if !can_become_text(rest) {
        let behind = decoded(rest.skip(flaw_len(rest) as int));
        assert((decode_utf8(text) + decode_utf8(bytes.take(n))).push(REPLACEMENT) + behind.0
            =~= decode_utf8(text) + (decode_utf8(bytes.take(n)).push(REPLACEMENT) + behind.0));
    }
}

/// A flaw stays a flaw, and takes up as many bytes, whatever follows it.
proof fn lemma_flaw_stays(bytes: Seq<u8>, more: Seq<u8>)
    requires
        !can_become_text(bytes),
    ensures
        !can_become_text(bytes + more),
        flaw_len(bytes + more) == flaw_len(bytes),
{
    let all = bytes + more;
    if can_become_text(all) {
        lemma_start_can_become_text(all, bytes.len() as int);
        assert(all.take(bytes.len() as int) =~= bytes);
    }
    lemma_flaw_len(bytes);
    lemma_hopeful_len(bytes, bytes.len());
    assert(bytes.take(bytes.len() as int) =~= bytes);
    let k = hopeful_len(bytes, bytes.len());
    lemma_longest_hope(bytes, bytes.len());
    assert(all.take(k as int) =~= bytes.take(k as int));
    assert(all.take(k as int + 1) =~= bytes.take(k as int + 1));
    lemma_hope_ends(all, k, all.len());
}

proof fn lemma_longest_hope(bytes: Seq<u8>, n: nat)
    requires
        n <= bytes.len(),
    ensures
        hopeful_len(bytes, n) == 0 || can_become_text(bytes.take(hopeful_len(bytes, n) as int)),
        hopeful_len(bytes, n) < n ==> !can_become_text(bytes.take(hopeful_len(bytes, n) as int + 1)),
    decreases n,
{
    if n > 0 && !can_become_text(bytes.take(n as int)) {
        lemma_longest_hope(bytes, (n - 1) as nat);
        lemma_hopeful_len(bytes, (n - 1) as nat);
    }
}

/// What is taken out of bytes, and what is left of them, is the same whether they come in one
/// piece or in two.
pub proof fn the_cut_makes_no_difference(a: Seq<u8>, b: Seq<u8>)
    ensures
        decoded(a + b).0 == decoded(a).0 + decoded(decoded(a).1 + b).0,
        decoded(a + b).1 == decoded(decoded(a).1 + b).1,
    decreases a.len(),
{
    let n = valid_len(a);
    lemma_valid_len(a);
    let text = a.take(n);
    let rest = a.skip(n);
    assert(text + (rest + b) =~= a + b);
    lemma_decoded_behind(text, rest + b);
    if !can_become_text(rest) {
        lemma_flaw_len(rest);
        lemma_flaw_stays(rest, b);
        lemma_valid_prefix(text, rest);
        assert(text + rest =~= a);
        let gap = flaw_len(rest) as int;
        let behind = rest.skip(gap);
        lemma_hopeless_says_nothing(rest, b);
        assert((rest + b).skip(gap) =~= behind + b);
        the_cut_makes_no_difference(behind, b);
        let said = decode_utf8(text);
        let late = decoded(decoded(behind).1 + b).0;
        assert(said + (seq![REPLACEMENT] + (decoded(behind).0 + late)) =~= (said.push(REPLACEMENT)
            + decoded(behind).0) + late);
    }
}

/// Bytes that begin with a flaw, because nothing of them is text, say the replacement
/// character for it first.
proof fn lemma_hopeless_says_nothing(rest: Seq<u8>, b: Seq<u8>)
    requires
        !can_become_text(rest),
        valid_len(rest) == 0,
    ensures
        ({
            let all = rest + b;
            let behind = decoded(all.skip(flaw_len(rest) as int));
            decoded(all) == (seq![REPLACEMENT] + behind.0, behind.1)
        }),
{
    let all = rest + b;
    lemma_flaw_stays(rest, b);
    lemma_valid_len(rest);
    lemma_valid_len(all);
    let m = valid_len(all);
    assert(m == 0) by {
        if 0 < m <= rest.len() {
            assert(all.take(m) =~= rest.take(m));
        } else if m > 0 {
            lemma_text_is_text(all.take(m));
            lemma_start_can_become_text(all.take(m), rest.len() as int);
            assert(all.take(m).take(rest.len() as int) =~= rest);
        }
    }
    assert(all.skip(0) =~= all);
    assert(all.take(0) =~= Seq::empty());
    assert(decode_utf8(all.take(0)) =~= Seq::<char>::empty());
    assert(Seq::<char>::empty().push(REPLACEMENT) =~= seq![REPLACEMENT]);
}

/// A byte that begins no character is replaced by itself, and what follows it is read as if it
/// were not there.
pub proof fn a_stray_byte_is_replaced_alone(byte: u8, bytes: Seq<u8>)
    requires
        !can_become_text(seq![byte]),
    ensures
        decoded(seq![byte] + bytes).0 == seq![REPLACEMENT] + decoded(bytes).0,
        decoded(seq![byte] + bytes).1 == decoded(bytes).1,
{
    let stray = seq![byte];
    lemma_flaw_len(stray);
    lemma_valid_len(stray);
    assert(stray.take(1) =~= stray);
    if valid_utf8(stray) {
        lemma_text_is_text(stray);
    }
    lemma_hopeless_says_nothing(stray, bytes);
    assert((stray + bytes).skip(1) =~= bytes);
}

/// Takes everything out of the carried bytes that is complete, leaving at most the three
/// bytes of an unfinished character.
///
/// Bytes that no later byte can make a character are replaced, not carried. What is taken, and
/// what is carried, does not depend on where the bytes were cut off.
pub fn take_valid_utf8(carry: &mut Vec<u8>) -> (content: String)
    ensures
        content@ == decoded(old(carry)@).0,
        final(carry)@ == decoded(old(carry)@).1,
        final(carry)@.len() <= 3,
        can_become_text(final(carry)@),
        valid_utf8(final(carry)@) ==> final(carry)@.len() == 0,
        forall|more: Seq<u8>| #[trigger]
            decoded(old(carry)@ + more) == (
                content@ + decoded(final(carry)@ + more).0,
                decoded(final(carry)@ + more).1,
            ),
{
    let mut content = String::new();
    let mut consumed: usize = 0;
    let mut done: bool = false;
    let ghost all = carry@;
    proof {
        assert(all.skip(0) =~= all);
        assert(content@ + decoded(all).0 =~= decoded(all).0);
    }
    while !done
        invariant
            carry@ == all,
            consumed <= all.len(),
            !done ==> content@ + decoded(all.skip(consumed as int)).0 == decoded(all).0,
            !done ==> decoded(all.skip(consumed as int)).1 == decoded(all).1,
            done ==> content@ == decoded(all).0,
            done ==> all.skip(consumed as int) == decoded(all).1,
            done ==> all.len() - consumed <= 3,
            done ==> can_become_text(all.skip(consumed as int)),
            done ==> (valid_utf8(all.skip(consumed as int)) ==> all.len() == consumed),
        decreases all.len() - consumed, (if done { 0int } else { 1int }),
    {
        let bytes = slice_subrange(carry.as_slice(), consumed, carry.len());
        let ghost rest = all.skip(consumed as int);
        let ghost before = content@;
        assert(bytes@ =~= rest);
        proof {
            lemma_valid_len(rest);
            assert(rest.take(rest.len() as int) =~= rest);
        }
        match check_utf8(bytes) {
            Ok(text) => {
                content.append(text);
                consumed = carry.len();
                done = true;
                proof {
                    let none = all.skip(consumed as int);
                    encode_utf8_decode_utf8(text@);
                    assert(none =~= Seq::<u8>::empty());
                    assert(rest.skip(rest.len() as int) =~= none);
                    lemma_nothing_can_become_text();
                }
            },
            Err(flaw) => {
                let ghost n = flaw.valid_up_to as int;
                let tail = slice_subrange(bytes, flaw.valid_up_to, bytes.len());
                let ghost left = rest.skip(n);
                assert(tail@ =~= left);
                proof {
                    assert(n == valid_len(rest)) by {
                        let m = valid_len(rest);
                        if m < n {
                            assert(!valid_utf8(rest.take(n)));
                        } else if n < m {
                            assert(!valid_utf8(rest.take(m)));
                        }
                    }
                    assert(rest.take(n) + left =~= rest);
                    lemma_can_become_text_behind(rest.take(n), left);
                    if valid_utf8(left) {
                        valid_utf8_concat(rest.take(n), left);
                    }
                }
                append_text(slice_subrange(bytes, 0, flaw.valid_up_to), &mut content);
                assert(bytes@.subrange(0, n) =~= rest.take(n));
                if flaw.ends_early {
                    consumed = consumed + flaw.valid_up_to;
                    done = true;
                    assert(all.skip(consumed as int) =~= left);
                } else {
                    let gap: usize = measure_flaw(tail);
                    content.push(REPLACEMENT);
                    consumed = consumed + flaw.valid_up_to + gap;
                    proof {
                        let behind = left.skip(gap as int);
                        assert(all.skip(consumed as int) =~= behind);
                        assert(content@ + decoded(behind).0 =~= before + decoded(rest).0);
                    }
                }
            },
        }
    }
    proof {
        assert forall|more: Seq<u8>| #[trigger] decoded(all + more) == (
            content@ + decoded(decoded(all).1 + more).0,
            decoded(decoded(all).1 + more).1,
        ) by {
            the_cut_makes_no_difference(all, more);
        }
    }
    *carry = carry.split_off(consumed);
    content
}

/// Appends bytes that are a text.
fn append_text(bytes: &[u8], content: &mut String)
    requires
        valid_utf8(bytes@),
    ensures
        final(content)@ == old(content)@ + decode_utf8(bytes@),
{
    match check_utf8(bytes) {
        Ok(text) => {
            proof {
                encode_utf8_decode_utf8(text@);
            }
            content.append(text);
        },
        Err(flaw) => {
            assert(bytes@.take(bytes@.len() as int) =~= bytes@);
        },
    }
}

/// The longest start of a text that is whole characters and at most so many bytes.
pub open spec fn head_within(text: Seq<char>, max: int) -> Seq<char> {
    if encode_utf8(text).len() <= max {
        text
    } else {
        up_to_byte(text, boundary_until(encode_utf8(text), max))
    }
}

/// The longest start of a text that is whole characters and at most `max` bytes.
pub fn truncate_at_char_boundary(content: &str, max: usize) -> (head: &str)
    ensures
        head@ == head_within(content@, max as int),
{
    if max >= byte_len(content) {
        return content;
    }
    let end: usize = previous_boundary(content, max);
    split_at_byte(content, end).0
}

/// A start cut to so many bytes keeps to them, and gives up at most three of them so as not
/// to split a character.
pub proof fn a_head_is_cut_close(text: Seq<char>, max: int)
    requires
        0 <= max < encode_utf8(text).len(),
    ensures
        max - 3 <= encode_utf8(head_within(text, max)).len() <= max,
        head_within(text, max).is_prefix_of(text),
{
    let bytes = encode_utf8(text);
    encode_utf8_valid_utf8(text);
    crate::text::boundary_until_is_near(bytes, max);
    let at = boundary_until(bytes, max);
    crate::text::cut_at_boundary(text, at);
    assert(head_within(text, max) =~= text.take(head_within(text, max).len() as int));
}

/// The line that stands where the rest of a capped stream would be.
pub open spec fn cap_marker(max: nat) -> Seq<char> {
    "\n[flowlite: output truncated, exceeded "@ + decimal(max) + " bytes]\n"@
}

/// What is recorded of a text when so many bytes of room are left under a cap of `max`: all
/// of it where it fits; else its head, unless that is empty, and the marker.
pub open spec fn within_cap(text: Seq<char>, room: int, max: nat) -> Seq<Seq<char>> {
    if encode_utf8(text).len() <= room {
        seq![text]
    } else if head_within(text, room).len() == 0 {
        seq![cap_marker(max)]
    } else {
        seq![head_within(text, room), cap_marker(max)]
    }
}

/// What a list of chunks holds.
pub open spec fn contents(chunks: Seq<TaskRunAttemptOutputChunk>) -> Seq<Seq<char>> {
    chunks.map_values(|chunk: TaskRunAttemptOutputChunk| chunk.content@)
}

/// Whether every chunk belongs to one stream.
pub open spec fn all_of(
    chunks: Seq<TaskRunAttemptOutputChunk>,
    stream: TaskRunAttemptOutputStream,
) -> bool {
    forall|i: int| 0 <= i < chunks.len() ==> (#[trigger] chunks[i]).stream == stream
}

/// Hands out what fits under the cap, and the marker once when a text does not fit.
pub fn send_within_cap(
    stream: TaskRunAttemptOutputStream,
    max: usize,
    recorded: &mut usize,
    capped: &mut bool,
    content: String,
) -> (chunks: Vec<TaskRunAttemptOutputChunk>)
    requires
        *old(recorded) <= max,
    ensures
        all_of(chunks@, stream),
        contents(chunks@) == within_cap(content@, max - *old(recorded), max as nat),
        *final(recorded) <= max,
        *final(recorded) == *old(recorded) + encode_utf8(
            head_within(content@, max - *old(recorded)),
        ).len(),
        *final(capped) == (*old(capped) || encode_utf8(content@).len() > max - *old(recorded)),
{
    let room: usize = max - *recorded;
    let mut chunks: Vec<TaskRunAttemptOutputChunk> = Vec::new();
    let length: usize = byte_len(content.as_str());
    if length <= room {
        *recorded = *recorded + length;
        chunks.push(TaskRunAttemptOutputChunk { stream, content });
        assert(contents(chunks@) =~= within_cap(content@, room as int, max as nat));
        return chunks;
    }
    proof {
        a_head_is_cut_close(content@, room as int);
    }
    let head = truncate_at_char_boundary(content.as_str(), room);
    if !head.is_empty() {
        *recorded = *recorded + byte_len(head);
        chunks.push(TaskRunAttemptOutputChunk { stream, content: head.to_owned() });
    } else {
        assert(head@ =~= Seq::<char>::empty());
        assert(encode_utf8(head@).len() == 0);
    }
    *capped = true;
    let mut marker = "\n[flowlite: output truncated, exceeded ".to_owned();
    marker.append(decimal_u64(max as u64).as_str());
    marker.append(" bytes]\n");
    chunks.push(TaskRunAttemptOutputChunk { stream, content: marker });
    assert(contents(chunks@) =~= within_cap(content@, room as int, max as nat));
    chunks
}

/// What has been recorded of one stream, and what waits to be.
#[derive(Debug)]
pub struct StreamRecorder {
    stream: TaskRunAttemptOutputStream,
    max_stream_bytes: usize,
    carry: Vec<u8>,
    recorded: usize,
    capped: bool,
}

impl StreamRecorder {
    #[verifier::type_invariant]
    spec fn keeps_to_its_cap(self) -> bool {
        &&& self.recorded <= self.max_stream_bytes
        &&& self.carry@.len() <= 3
        &&& valid_utf8(self.carry@) ==> self.carry@.len() == 0
        &&& can_become_text(self.carry@)
    }

    /// The stream that is recorded.
    pub closed spec fn stream(&self) -> TaskRunAttemptOutputStream {
        self.stream
    }

    /// The most bytes that are recorded.
    pub closed spec fn max(&self) -> nat {
        self.max_stream_bytes as nat
    }

    /// The bytes of an unfinished character.
    pub closed spec fn waiting(&self) -> Seq<u8> {
        self.carry@
    }

    /// How many bytes have been recorded.
    pub closed spec fn recorded(&self) -> nat {
        self.recorded as nat
    }

    /// Whether the stream ran past the cap, after which nothing more is recorded.
    pub closed spec fn capped(&self) -> bool {
        self.capped
    }

    /// What recording a text hands out, and leaves behind.
    pub open spec fn records(
        &self,
        text: Seq<char>,
        chunks: Seq<TaskRunAttemptOutputChunk>,
        after: &Self,
    ) -> bool {
        let room = self.max() - self.recorded();
        &&& all_of(chunks, self.stream())
        &&& after.stream() == self.stream()
        &&& after.max() == self.max()
        &&& contents(chunks) == (if text.len() == 0 {
            Seq::empty()
        } else {
            within_cap(text, room, self.max())
        })
        &&& after.recorded() == self.recorded() + encode_utf8(head_within(text, room)).len()
        &&& after.recorded() <= after.max()
        &&& after.capped() == (self.capped() || encode_utf8(text).len() > room)
    }

    /// What reading bytes hands out, and leaves behind. Past the cap that is nothing.
    pub open spec fn has_read(
        &self,
        bytes: Seq<u8>,
        chunks: Seq<TaskRunAttemptOutputChunk>,
        after: &Self,
    ) -> bool {
        if self.capped() {
            chunks.len() == 0 && *after == *self
        } else {
            let read = decoded(self.waiting() + bytes);
            &&& self.records(read.0, chunks, after)
            &&& after.waiting() == read.1
        }
    }

    /// What the end of the stream hands out, and leaves behind: an unfinished character will
    /// never be finished.
    pub open spec fn has_ended(
        &self,
        chunks: Seq<TaskRunAttemptOutputChunk>,
        after: &Self,
    ) -> bool {
        if self.capped() || self.waiting().len() == 0 {
            chunks.len() == 0 && *after == *self
        } else {
            &&& self.records(seq![REPLACEMENT], chunks, after)
            &&& after.waiting().len() == 0
        }
    }

    /// A stream nothing has been read from.
    pub fn new(stream: TaskRunAttemptOutputStream, max_stream_bytes: usize) -> (r: StreamRecorder)
        ensures
            r.stream() == stream,
            r.max() == max_stream_bytes,
            r.waiting() == Seq::<u8>::empty(),
            r.recorded() == 0,
            !r.capped(),
    {
        let carry: Vec<u8> = Vec::new();
        proof {
            lemma_nothing_is_said();
            assert(carry@ =~= Seq::empty());
        }
        StreamRecorder { stream, max_stream_bytes, carry, recorded: 0, capped: false }
    }

    /// Records one read. Past the cap the bytes are dropped: the pipe still has to be read,
    /// or the command would block on it.
    pub fn read(&mut self, bytes: &[u8]) -> (chunks: Vec<TaskRunAttemptOutputChunk>)
        ensures
            old(self).has_read(bytes@, chunks@, final(self)),
            valid_utf8(final(self).waiting()) ==> final(self).waiting().len() == 0,
            can_become_text(final(self).waiting()),
    {
        proof {
            use_type_invariant(&*self);
        }
        let mut chunks: Vec<TaskRunAttemptOutputChunk> = Vec::new();
        if self.capped {
            return chunks;
        }
        let mut carry: Vec<u8> = self.carry.clone();
        assert(carry@ =~= self.carry@);
        carry.extend_from_slice(bytes);
        assert(carry@ =~= self.carry@ + bytes@);
        let content = take_valid_utf8(&mut carry);
        let mut recorded: usize = self.recorded;
        let mut capped: bool = self.capped;
        if content.as_str().is_empty() {
            proof {
                assert(content@ =~= Seq::<char>::empty());
                assert(encode_utf8(content@).len() == 0);
                assert(contents(chunks@) =~= Seq::empty());
            }
        } else {
            chunks = send_within_cap(
                self.stream,
                self.max_stream_bytes,
                &mut recorded,
                &mut capped,
                content,
            );
        }
        *self = StreamRecorder {
            stream: self.stream,
            max_stream_bytes: self.max_stream_bytes,
            carry,
            recorded,
            capped,
        };
        chunks
    }

    /// Records the end of the stream: an unfinished character will never be finished, and is
    /// replaced.
    pub fn finish(&mut self) -> (chunks: Vec<TaskRunAttemptOutputChunk>)
        ensures
            old(self).has_ended(chunks@, final(self)),
    {
        proof {
            use_type_invariant(&*self);
        }
        if self.capped || self.carry.len() == 0 {
            return Vec::new();
        }
        let mut content = String::new();
        content.push(REPLACEMENT);
        assert(content@ =~= seq![REPLACEMENT]);
        let mut recorded: usize = self.recorded;
        let mut capped: bool = self.capped;
        let chunks = send_within_cap(
            self.stream,
            self.max_stream_bytes,
            &mut recorded,
            &mut capped,
            content,
        );
        let carry: Vec<u8> = Vec::new();
        proof {
            lemma_nothing_is_said();
            assert(carry@ =~= Seq::empty());
        }
        *self = StreamRecorder {
            stream: self.stream,
            max_stream_bytes: self.max_stream_bytes,
            carry,
            recorded,
            capped,
        };
        chunks
    }
}

/// No bytes say nothing, leave nothing waiting, and can become a text.
proof fn lemma_nothing_is_said()
    ensures
        decoded(Seq::empty()) == (Seq::<char>::empty(), Seq::<u8>::empty()),
        can_become_text(Seq::empty()),
{
    let none = Seq::<u8>::empty();
    lemma_nothing_can_become_text();
    assert(none.take(0) =~= none);
    assert(none.skip(0) =~= none);
    assert(decode_utf8(none) =~= Seq::<char>::empty());
}

/// What a whole stream says: an unfinished character at its end is replaced too.
pub open spec fn said(bytes: Seq<u8>) -> Seq<char> {
    let (text, waiting) = decoded(bytes);
    if waiting.len() > 0 {
        text.push(REPLACEMENT)
    } else {
        text
    }
}

/// A stream that is a text says that text.
pub proof fn a_text_says_itself(bytes: Seq<u8>)
    requires
        valid_utf8(bytes),
    ensures
        said(bytes) == decode_utf8(bytes),
        decoded(bytes).1.len() == 0,
{
    let n = valid_len(bytes);
    lemma_valid_len(bytes);
    assert(bytes.take(bytes.len() as int) =~= bytes);
    assert(n == bytes.len());
    lemma_nothing_can_become_text();
    assert(bytes.skip(n) =~= Seq::empty());
}

/// Whether a stream was recorded from its start to its end: `recorders` holds a recorder
/// before each read and after the last, `chunks` what each read handed out, `last` what the
/// end of the stream did.
pub open spec fn recorded_stream(
    recorders: Seq<StreamRecorder>,
    reads: Seq<Seq<u8>>,
    chunks: Seq<Seq<TaskRunAttemptOutputChunk>>,
    last: Seq<TaskRunAttemptOutputChunk>,
    ended: StreamRecorder,
) -> bool {
    &&& recorded_reads(recorders, reads, chunks)
    &&& recorders.last().has_ended(last, &ended)
}

/// Whether the reads of a stream were recorded, from its start on.
pub open spec fn recorded_reads(
    recorders: Seq<StreamRecorder>,
    reads: Seq<Seq<u8>>,
    chunks: Seq<Seq<TaskRunAttemptOutputChunk>>,
) -> bool {
    &&& recorders.len() == reads.len() + 1
    &&& chunks.len() == reads.len()
    &&& recorders[0].waiting() == Seq::<u8>::empty()
    &&& recorders[0].recorded() == 0
    &&& !recorders[0].capped()
    &&& forall|i: int|
        0 <= i < reads.len() ==> (#[trigger] recorders[i]).has_read(
            reads[i],
            chunks[i],
            &recorders[i + 1],
        )
}

/// Whatever a command writes, and however it is split into reads, what is recorded spells what
/// the stream says, so long as that keeps to the cap, and every chunk carries the stream.
pub proof fn what_is_recorded_spells_the_stream(
    recorders: Seq<StreamRecorder>,
    reads: Seq<Seq<u8>>,
    chunks: Seq<Seq<TaskRunAttemptOutputChunk>>,
    last: Seq<TaskRunAttemptOutputChunk>,
    ended: StreamRecorder,
)
    requires
        recorded_stream(recorders, reads, chunks, last, ended),
        encode_utf8(said(all_together(reads))).len() <= recorders[0].max(),
    ensures
        all_together(contents(all_together(chunks) + last)) == said(all_together(reads)),
        all_of(all_together(chunks) + last, recorders[0].stream()),
{
    let all = all_together(reads);
    let none = Seq::<u8>::empty();
    let text = decoded(all).0;
    let end = recorders.last();
    lemma_reads_are_recorded(recorders, reads, chunks);
    assert(all + none =~= all);
    lemma_encode_concat(text, seq![REPLACEMENT]);
    assert(text + seq![REPLACEMENT] =~= text.push(REPLACEMENT));
    if end.capped() {
        assert(encode_utf8(decoded(all + none).0).len() > recorders[0].max());
        assert(false);
    }
    let early = all_together(chunks);
    lemma_contents_concat(early, last);
    if end.waiting().len() == 0 {
        assert(contents(last) =~= Seq::empty());
        assert(contents(early) + contents(last) =~= contents(early));
    } else {
        assert(contents(last) == seq![seq![REPLACEMENT]]);
        assert((contents(early) + contents(last)).drop_last() =~= contents(early));
        assert(text + seq![REPLACEMENT] =~= text.push(REPLACEMENT));
    }
}

/// A stream is recorded alike however it is split into reads.
pub proof fn the_split_makes_no_difference(
    recorders: Seq<StreamRecorder>,
    reads: Seq<Seq<u8>>,
    chunks: Seq<Seq<TaskRunAttemptOutputChunk>>,
    last: Seq<TaskRunAttemptOutputChunk>,
    ended: StreamRecorder,
    other_recorders: Seq<StreamRecorder>,
    other_reads: Seq<Seq<u8>>,
    other_chunks: Seq<Seq<TaskRunAttemptOutputChunk>>,
    other_last: Seq<TaskRunAttemptOutputChunk>,
    other_ended: StreamRecorder,
)
    requires
        recorded_stream(recorders, reads, chunks, last, ended),
        recorded_stream(other_recorders, other_reads, other_chunks, other_last, other_ended),
        all_together(reads) == all_together(other_reads),
        encode_utf8(said(all_together(reads))).len() <= recorders[0].max(),
        encode_utf8(said(all_together(reads))).len() <= other_recorders[0].max(),
    ensures
        all_together(contents(all_together(chunks) + last)) == all_together(
            contents(all_together(other_chunks) + other_last),
        ),
{
    what_is_recorded_spells_the_stream(recorders, reads, chunks, last, ended);
    what_is_recorded_spells_the_stream(
        other_recorders,
        other_reads,
        other_chunks,
        other_last,
        other_ended,
    );
}

proof fn lemma_encode_concat(a: Seq<char>, b: Seq<char>)
    ensures
        encode_utf8(a + b) == encode_utf8(a) + encode_utf8(b),
    decreases a.len(),
{
    if a.len() == 0 {
        assert(a + b =~= b);
        assert(encode_utf8(a) + encode_utf8(b) =~= encode_utf8(b));
    } else {
        lemma_encode_concat(a.drop_first(), b);
        assert((a + b).drop_first() =~= a.drop_first() + b);
        assert(encode_utf8(a + b) =~= encode_utf8(a) + encode_utf8(b));
    }
}

proof fn lemma_contents_concat(
    a: Seq<TaskRunAttemptOutputChunk>,
    b: Seq<TaskRunAttemptOutputChunk>,
)
    ensures
        contents(a + b) == contents(a) + contents(b),
{
    assert(contents(a + b) =~= contents(a) + contents(b));
}

/// Either all that a stream says so far is recorded, or it runs past the cap, however it goes
/// on.
spec fn keeps_up(
    bytes: Seq<u8>,
    start: StreamRecorder,
    end: StreamRecorder,
    chunks: Seq<TaskRunAttemptOutputChunk>,
) -> bool {
    &&& all_of(chunks, start.stream())
    &&& end.stream() == start.stream()
    &&& end.max() == start.max()
    &&& if end.capped() {
        forall|more: Seq<u8>| encode_utf8((#[trigger] decoded(bytes + more)).0).len() > end.max()
    } else {
        &&& end.waiting() == decoded(bytes).1
        &&& end.recorded() == encode_utf8(decoded(bytes).0).len()
        &&& all_together(contents(chunks)) == decoded(bytes).0
    }
}

proof fn lemma_keeps_up(
    before: Seq<u8>,
    bytes: Seq<u8>,
    first: StreamRecorder,
    start: StreamRecorder,
    end: StreamRecorder,
    earlier: Seq<TaskRunAttemptOutputChunk>,
    chunks: Seq<TaskRunAttemptOutputChunk>,
)
    requires
        keeps_up(before, first, start, earlier),
        start.has_read(bytes, chunks, &end),
    ensures
        keeps_up(before + bytes, first, end, earlier + chunks),
{
    let all = before + bytes;
    lemma_contents_concat(earlier, chunks);
    if start.capped() {
        assert(earlier + chunks =~= earlier);
        assert forall|more: Seq<u8>|
            encode_utf8((#[trigger] decoded(all + more)).0).len() > end.max() by {
            assert(all + more =~= before + (bytes + more));
        }
    } else {
        lemma_one_more_read(before, bytes, start, chunks, end);
        let text = decoded(start.waiting() + bytes).0;
        if !end.capped() {
            if text.len() == 0 {
                assert(contents(earlier) + contents(chunks) =~= contents(earlier));
                assert(decoded(before).0 + text =~= decoded(before).0);
            } else {
                assert((contents(earlier) + contents(chunks)).drop_last() =~= contents(earlier));
            }
        }
    }
}

proof fn lemma_reads_are_recorded(
    recorders: Seq<StreamRecorder>,
    reads: Seq<Seq<u8>>,
    chunks: Seq<Seq<TaskRunAttemptOutputChunk>>,
)
    requires
        recorded_reads(recorders, reads, chunks),
    ensures
        keeps_up(all_together(reads), recorders[0], recorders.last(), all_together(chunks)),
    decreases reads.len(),
{
    if reads.len() == 0 {
        lemma_nothing_is_said();
        assert(contents(all_together(chunks)) =~= Seq::empty());
    } else {
        let k = reads.len() - 1;
        let earlier = reads.drop_last();
        let early_recorders = recorders.drop_last();
        let early_chunks = chunks.drop_last();
        assert forall|i: int| 0 <= i < earlier.len() implies (
        #[trigger] early_recorders[i]).has_read(
            earlier[i],
            early_chunks[i],
            &early_recorders[i + 1],
        ) by {
            assert(recorders[i].has_read(reads[i], chunks[i], &recorders[i + 1]));
        }
        lemma_reads_are_recorded(early_recorders, earlier, early_chunks);
        assert(recorders[k].has_read(reads[k], chunks[k], &recorders[k + 1]));
        lemma_keeps_up(
            all_together(earlier),
            reads[k],
            recorders[0],
            recorders[k],
            recorders[k + 1],
            all_together(early_chunks),
            chunks[k],
        );
    }
}

proof fn lemma_one_more_read(
    before: Seq<u8>,
    bytes: Seq<u8>,
    start: StreamRecorder,
    chunks: Seq<TaskRunAttemptOutputChunk>,
    end: StreamRecorder,
)
    requires
        !start.capped(),
        start.has_read(bytes, chunks, &end),
        start.waiting() == decoded(before).1,
        start.recorded() == encode_utf8(decoded(before).0).len(),
    ensures
        ({
            let all = before + bytes;
            let text = decoded(start.waiting() + bytes).0;
            if end.capped() {
                forall|more: Seq<u8>|
                    encode_utf8((#[trigger] decoded(all + more)).0).len() > end.max()
            } else {
                &&& end.waiting() == decoded(all).1
                &&& decoded(all).0 == decoded(before).0 + text
                &&& end.recorded() == encode_utf8(decoded(all).0).len()
                &&& contents(chunks) == (if text.len() == 0 {
                    Seq::empty()
                } else {
                    seq![text]
                })
            }
        }),
{
    let all = before + bytes;
    let early = decoded(before).0;
    let text = decoded(start.waiting() + bytes).0;
    the_cut_makes_no_difference(before, bytes);
    lemma_encode_concat(early, text);
    if end.capped() {
        assert forall|more: Seq<u8>|
            encode_utf8((#[trigger] decoded(all + more)).0).len() > end.max() by {
            the_cut_makes_no_difference(all, more);
            lemma_encode_concat(early + text, decoded(decoded(all).1 + more).0);
        }
    }
}

/// A text is recorded whole exactly where it fits into the room that is left, filling it to
/// the last byte allowed. Else a start of it is, as long as fits and at most three bytes
/// shorter, and the marker stands behind it.
pub proof fn what_does_not_fit_is_cut_once(text: Seq<char>, room: int, max: nat) -> (kept: Seq<char>)
    requires
        0 <= room,
    ensures
        kept.is_prefix_of(text),
        encode_utf8(kept).len() <= room,
        encode_utf8(text).len() <= room ==> kept == text && all_together(
            within_cap(text, room, max),
        ) == text,
        encode_utf8(text).len() > room ==> room - 3 <= encode_utf8(kept).len() && all_together(
            within_cap(text, room, max),
        ) == kept + cap_marker(max),
{
    reveal_with_fuel(all_together, 3);
    let kept = head_within(text, room);
    let parts = within_cap(text, room, max);
    if encode_utf8(text).len() <= room {
        assert(text =~= text.take(text.len() as int));
        assert(all_together(parts) =~= text);
    } else {
        a_head_is_cut_close(text, room);
        if kept.len() == 0 {
            assert(parts.drop_last() =~= Seq::empty());
            assert(all_together(parts) =~= kept + cap_marker(max));
        } else {
            assert(parts.drop_last() =~= seq![kept]);
            assert(parts.drop_last().drop_last() =~= Seq::empty());
            assert(all_together(parts) =~= kept + cap_marker(max));
        }
    }
    kept
}

/// What is recorded of a stream past its cap is a start of what it says, as long as the cap
/// allows and at most three bytes shorter, and the marker behind it, once.
spec fn keeps_its_start(
    bytes: Seq<u8>,
    end: StreamRecorder,
    chunks: Seq<TaskRunAttemptOutputChunk>,
    kept: Seq<char>,
) -> bool {
    &&& all_together(contents(chunks)) == kept + cap_marker(end.max())
    &&& end.max() - 3 <= encode_utf8(kept).len() <= end.max()
    &&& kept.is_prefix_of(decoded(bytes).0)
}

proof fn lemma_prefix_of_more(kept: Seq<char>, before: Seq<u8>, more: Seq<u8>)
    requires
        kept.is_prefix_of(decoded(before).0),
    ensures
        kept.is_prefix_of(decoded(before + more).0),
{
    the_cut_makes_no_difference(before, more);
    let longer = decoded(before + more).0;
    assert(kept =~= longer.take(kept.len() as int)) by {
        assert(kept =~= decoded(before).0.take(kept.len() as int));
    }
}

proof fn lemma_cap_is_reached(
    before: Seq<u8>,
    bytes: Seq<u8>,
    first: StreamRecorder,
    start: StreamRecorder,
    end: StreamRecorder,
    earlier: Seq<TaskRunAttemptOutputChunk>,
    chunks: Seq<TaskRunAttemptOutputChunk>,
) -> (kept: Seq<char>)
    requires
        keeps_up(before, first, start, earlier),
        !start.capped(),
        start.recorded() <= start.max(),
        start.has_read(bytes, chunks, &end),
        end.capped(),
    ensures
        keeps_its_start(before + bytes, end, earlier + chunks, kept),
{
    let early = decoded(before).0;
    let text = decoded(start.waiting() + bytes).0;
    let room = start.max() - start.recorded();
    the_cut_makes_no_difference(before, bytes);
    lemma_contents_concat(earlier, chunks);
    let head = what_does_not_fit_is_cut_once(text, room, start.max());
    let kept = early + head;
    lemma_encode_concat(early, head);
    parts_keep_their_order(contents(earlier), contents(chunks));
    assert(all_together(contents(earlier + chunks)) =~= kept + cap_marker(end.max()));
    assert(kept =~= (early + text).take(kept.len() as int)) by {
        assert(head =~= text.take(head.len() as int));
    }
    kept
}

proof fn lemma_capped_reads(
    recorders: Seq<StreamRecorder>,
    reads: Seq<Seq<u8>>,
    chunks: Seq<Seq<TaskRunAttemptOutputChunk>>,
) -> (kept: Seq<char>)
    requires
        recorded_reads(recorders, reads, chunks),
        recorders.last().capped(),
    ensures
        keeps_its_start(all_together(reads), recorders.last(), all_together(chunks), kept),
    decreases reads.len(),
{
    if reads.len() == 0 {
        assert(recorders.last() == recorders[0]);
        Seq::empty()
    } else {
        let k = reads.len() - 1;
        let earlier = reads.drop_last();
        let early_recorders = recorders.drop_last();
        let early_chunks = chunks.drop_last();
        assert forall|i: int| 0 <= i < earlier.len() implies (
        #[trigger] early_recorders[i]).has_read(
            earlier[i],
            early_chunks[i],
            &early_recorders[i + 1],
        ) by {
            assert(recorders[i].has_read(reads[i], chunks[i], &recorders[i + 1]));
        }
        let start = recorders[k];
        let end = recorders[k + 1];
        assert(start.has_read(reads[k], chunks[k], &end));
        assert(early_recorders.last() == start);
        if start.capped() {
            let kept = lemma_capped_reads(early_recorders, earlier, early_chunks);
            lemma_prefix_of_more(kept, all_together(earlier), reads[k]);
            assert(all_together(early_chunks) + chunks[k] =~= all_together(early_chunks));
            kept
        } else {
            lemma_reads_are_recorded(early_recorders, earlier, early_chunks);
            if k > 0 {
                assert(recorders[k - 1].has_read(reads[k - 1], chunks[k - 1], &recorders[k]));
            }
            lemma_cap_is_reached(
                all_together(earlier),
                reads[k],
                recorders[0],
                start,
                end,
                all_together(early_chunks),
                chunks[k],
            )
        }
    }
}

/// Of a stream that says more than its cap allows a start is recorded, as long as the cap
/// allows and at most three bytes shorter, with the marker behind it, once, however the
/// stream is split into reads.
pub proof fn a_capped_stream_keeps_its_start(
    recorders: Seq<StreamRecorder>,
    reads: Seq<Seq<u8>>,
    chunks: Seq<Seq<TaskRunAttemptOutputChunk>>,
    last: Seq<TaskRunAttemptOutputChunk>,
    ended: StreamRecorder,
) -> (kept: Seq<char>)
    requires
        recorded_stream(recorders, reads, chunks, last, ended),
        encode_utf8(said(all_together(reads))).len() > recorders[0].max(),
    ensures
        all_together(contents(all_together(chunks) + last)) == kept + cap_marker(
            recorders[0].max(),
        ),
        kept.is_prefix_of(said(all_together(reads))),
        recorders[0].max() - 3 <= encode_utf8(kept).len() <= recorders[0].max(),
{
    let all = all_together(reads);
    let text = decoded(all).0;
    let end = recorders.last();
    let early = all_together(chunks);
    lemma_reads_are_recorded(recorders, reads, chunks);
    lemma_contents_concat(early, last);
    lemma_encode_concat(text, seq![REPLACEMENT]);
    assert(text + seq![REPLACEMENT] =~= text.push(REPLACEMENT));
    if end.capped() {
        let kept = lemma_capped_reads(recorders, reads, chunks);
        assert(early + last =~= early);
        assert(kept =~= said(all).take(kept.len() as int)) by {
            assert(kept =~= text.take(kept.len() as int));
        }
        kept
    } else {
        let k = recorders.len() - 1;
        if k > 0 {
            assert(recorders[k - 1].has_read(reads[k - 1], chunks[k - 1], &recorders[k]));
        }
        let room = end.max() - end.recorded();
        let head = what_does_not_fit_is_cut_once(seq![REPLACEMENT], room, end.max());
        let kept = text + head;
        lemma_encode_concat(text, head);
        parts_keep_their_order(contents(early), contents(last));
        assert(all_together(contents(early + last)) =~= kept + cap_marker(end.max()));
        assert(kept =~= said(all).take(kept.len() as int)) by {
            assert(head =~= seq![REPLACEMENT].take(head.len() as int));
        }
        kept
    }
}

} // verus!
