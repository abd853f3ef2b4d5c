//! What holds for every input: of substitution, for every template and every
//! argument list; of dispatch, for every command table and every packet.

use crate::dispatch::{flat, flat_all, resolved, resolved_all, ResolutionView};
use crate::osc::{ArgView, MessageView, PacketView, TimeTag};
use crate::reply::{reply_address, reply_message, unknown_command_reply, ReplyKind, ReplyView};
use crate::template::{is_quoted, passes, placeholder, rendering, substituted};
use crate::text::{
    decimal, is_digit, lemma_decimal_digits, lemma_decimal_prefix, lemma_replaced_absent,
    lemma_replaced_around, lemma_replaced_at, occurs_at, occurs_in,
};
use crate::wire::{osc_string, reply_bytes, zeros};
use vstd::prelude::*;
use vstd::utf8::{
    encode_scalar, encode_utf8, encode_utf8_decode_utf8, has_width_1_encoding,
    last_continuation_byte, leading_byte_width_1, leading_byte_width_2, leading_byte_width_3,
    leading_byte_width_4, second_last_continuation_byte, third_last_continuation_byte,
};

verus! {

/// Whether `text` begins with `prefix`.
pub open spec fn starts_with(text: Seq<char>, prefix: Seq<char>) -> bool {
    occurs_at(text, prefix, 0)
}

/// Whether no occurrence of `pat` can touch the part `m` of a text, whatever
/// stands before and after `m`.
pub open spec fn inert(m: Seq<char>, pat: Seq<char>) -> bool {
    forall|x: Seq<char>, y: Seq<char>, p: int| #[trigger]
        occurs_at(x + m + y, pat, p) ==> p + pat.len() <= x.len() || x.len() + m.len() <= p
}

/// Whether `r` neither starts nor ends with a character of a placeholder.
pub open spec fn plain_ends(r: Seq<char>) -> bool {
    &&& r.len() >= 1
    &&& r.first() != '$' && !is_digit(r.first())
    &&& r.last() != '$' && !is_digit(r.last())
}

/// A placeholder is a `$` followed by one digit or more.
pub proof fn lemma_placeholder_shape(i: nat)
    ensures
        placeholder(i).len() >= 2,
        placeholder(i)[0] == '$',
        forall|k: int| 1 <= k < placeholder(i).len() ==> is_digit(#[trigger] placeholder(i)[k]),
{
    lemma_decimal_digits(i);
    assert forall|k: int| 1 <= k < placeholder(i).len() implies is_digit(
        #[trigger] placeholder(i)[k],
    ) by {
        assert(placeholder(i)[k] == decimal(i)[k - 1]);
    }
}

/// The placeholder of a smaller index that is not the beginning of the
/// placeholder of `j` cannot touch it.
pub proof fn lemma_placeholder_inert(j: nat, i: nat)
    requires
        i < j,
        !starts_with(placeholder(j), placeholder(i)),
    ensures
        inert(placeholder(j), placeholder(i)),
{
    let pj = placeholder(j);
    let pi = placeholder(i);
    lemma_placeholder_shape(i);
    lemma_placeholder_shape(j);
    assert forall|x: Seq<char>, y: Seq<char>, p: int| #[trigger]
        occurs_at(x + pj + y, pi, p) implies p + pi.len() <= x.len() || x.len() + pj.len()
        <= p by {
        let s = x + pj + y;
        let n = pi.len() as int;
        let w = s.subrange(p, p + n);
        let start = x.len() as int;
        if !(p + n <= start || start + pj.len() <= p) {
            if p < start {
                assert(w[start - p] == s[start]);
                assert(s[start] == pj[0]);
                assert(is_digit(pi[start - p]));
            } else if p == start {
                if n <= pj.len() {
                    assert(pj.subrange(0, n) =~= w) by {
                        assert forall|k: int| 0 <= k < n implies pj.subrange(0, n)[k] == w[k] by {
                            assert(w[k] == s[p + k]);
                        }
                    }
                } else {
                    let dj = decimal(j);
                    let di = decimal(i);
                    assert(di.take(dj.len() as int) =~= dj) by {
                        assert forall|k: int| 0 <= k < dj.len() implies di.take(
                            dj.len() as int,
                        )[k] == dj[k] by {
                            assert(di[k] == pi[k + 1]);
                            assert(w[k + 1] == s[p + k + 1]);
                            assert(s[p + k + 1] == pj[k + 1]);
                            assert(pj[k + 1] == dj[k]);
                        }
                    }
                    lemma_decimal_prefix(j, i);
                }
            } else {
                assert(w[0] == s[p]);
                assert(s[p] == pj[p - start]);
                assert(is_digit(pj[p - start]));
            }
        }
    }
}

/// A text with plain ends in which a placeholder does not occur cannot be
/// touched by that placeholder.
pub proof fn lemma_text_inert(r: Seq<char>, k: nat)
    requires
        plain_ends(r),
        !occurs_in(r, placeholder(k)),
    ensures
        inert(r, placeholder(k)),
{
    let pk = placeholder(k);
    lemma_placeholder_shape(k);
    assert forall|x: Seq<char>, y: Seq<char>, p: int| #[trigger]
        occurs_at(x + r + y, pk, p) implies p + pk.len() <= x.len() || x.len() + r.len()
        <= p by {
        let s = x + r + y;
        let n = pk.len() as int;
        let w = s.subrange(p, p + n);
        let start = x.len() as int;
        let end = start + r.len();
        if !(p + n <= start || end <= p) {
            if p < start {
                assert(w[start - p] == s[start]);
                assert(s[start] == r[0]);
                assert(is_digit(pk[start - p]));
            } else if p + n <= end {
                assert(r.subrange(p - start, p - start + n) =~= w) by {
                    assert forall|q: int| 0 <= q < n implies r.subrange(
                        p - start,
                        p - start + n,
                    )[q] == w[q] by {
                        assert(w[q] == s[p + q]);
                    }
                }
                assert(occurs_at(r, pk, p - start));
            } else {
                let q = end - 1 - p;
                assert(w[q] == s[end - 1]);
                assert(s[end - 1] == r.last());
                if q >= 1 {
                    assert(is_digit(pk[q]));
                }
            }
        }
    }
}

/// What an argument is rendered as neither starts nor ends with a character
/// of a placeholder.
pub proof fn lemma_rendering_plain_ends(arg: ArgView)
    requires
        rendering(arg) is Some,
    ensures
        plain_ends(rendering(arg)->0),
{
}

/// The passes from `lo` to `hi` are the passes from `lo` to `mid`, then those
/// from `mid` to `hi`.
pub proof fn lemma_passes_split(text: Seq<char>, args: Seq<ArgView>, lo: nat, mid: nat, hi: nat)
    requires
        lo <= mid <= hi <= args.len(),
    ensures
        passes(text, args, lo, hi) == passes(passes(text, args, lo, mid), args, mid, hi),
    decreases hi,
{
    if hi > mid {
        lemma_passes_split(text, args, lo, mid, (hi - 1) as nat);
    }
}

/// A part that none of the placeholders from `lo` to `hi` can touch is left
/// as it is by their passes, which go on independently on either side of it.
pub proof fn lemma_segment_stays(
    a: Seq<char>,
    m: Seq<char>,
    b: Seq<char>,
    args: Seq<ArgView>,
    lo: nat,
    hi: nat,
)
    requires
        lo <= hi <= args.len(),
        forall|k: nat|
            lo <= k < hi && rendering(args[k as int]) is Some ==> inert(
                m,
                #[trigger] placeholder(k),
            ),
    ensures
        passes(a + m + b, args, lo, hi) == passes(a, args, lo, hi) + m + passes(b, args, lo, hi),
    decreases hi,
{
    if hi > lo {
        let k = (hi - 1) as nat;
        lemma_segment_stays(a, m, b, args, lo, k);
        let a2 = passes(a, args, lo, k);
        let b2 = passes(b, args, lo, k);
        match rendering(args[k as int]) {
            Some(r) => {
                assert(inert(m, placeholder(k)));
                assert forall|p: int| #[trigger]
                    occurs_at(a2 + m + b2, placeholder(k), p) implies p + placeholder(k).len()
                    <= a2.len() || a2.len() + m.len() <= p by {}
                lemma_replaced_around(a2, m, b2, placeholder(k), r);
            },
            None => {},
        }
    }
}

/// Every value is rendered between double quotes, but for `Nil` and `Inf`,
/// which are the bare words `null` and `inf` and hold no quote; blobs, MIDI
/// messages and arrays have no rendering.
pub proof fn law_values_quoted(arg: ArgView)
    ensures
        match arg {
            ArgView::Nil => rendering(arg) == Some(seq!['n', 'u', 'l', 'l']),
            ArgView::Inf => rendering(arg) == Some(seq!['i', 'n', 'f']),
            ArgView::Blob(_) | ArgView::Midi(_) | ArgView::Array(_) => rendering(arg) is None,
            _ => rendering(arg) is Some && is_quoted(rendering(arg)->0),
        },
        arg is Nil || arg is Inf ==> !rendering(arg)->0.contains('"'),
{
}

/// A text in which no placeholder of an argument occurs is left as it is.
pub proof fn law_plain_text_stays(text: Seq<char>, args: Seq<ArgView>)
    requires
        forall|i: nat| i < args.len() ==> !occurs_in(text, #[trigger] placeholder(i)),
    ensures
        substituted(text, args) == text,
{
    lemma_plain_text_stays(text, args, args.len());
}

proof fn lemma_plain_text_stays(text: Seq<char>, args: Seq<ArgView>, hi: nat)
    requires
        hi <= args.len(),
        forall|i: nat| i < args.len() ==> !occurs_in(text, #[trigger] placeholder(i)),
    ensures
        passes(text, args, 0, hi) == text,
    decreases hi,
{
    if hi > 0 {
        let k = (hi - 1) as nat;
        lemma_plain_text_stays(text, args, k);
        assert(!occurs_in(text, placeholder(k)));
        match rendering(args[k as int]) {
            Some(r) => {
                lemma_replaced_absent(text, placeholder(k), r);
            },
            None => {},
        }
    }
}

/// A placeholder whose index is beyond the arguments stays where it is, and
/// substitution goes on independently on either side of it.
///
/// This is stated for the placeholders that do not begin with the
/// placeholder of a substituted argument, as `$10` begins with `$1`.
pub proof fn law_later_placeholder_stays(
    before: Seq<char>,
    after: Seq<char>,
    args: Seq<ArgView>,
    j: nat,
)
    requires
        j >= args.len(),
        forall|i: nat|
            i < args.len() && rendering(args[i as int]) is Some ==> !starts_with(
                placeholder(j),
                #[trigger] placeholder(i),
            ),
    ensures
        substituted(before + placeholder(j) + after, args) == substituted(before, args)
            + placeholder(j) + substituted(after, args),
{
    assert forall|i: nat| i < args.len() && rendering(args[i as int]) is Some implies inert(
        placeholder(j),
        #[trigger] placeholder(i),
    ) by {
        lemma_placeholder_inert(j, i);
    }
    lemma_segment_stays(before, placeholder(j), after, args, 0, args.len());
}

/// Every occurrence of the placeholder of a substituted argument is replaced
/// by the rendering of that argument, and substitution goes on independently
/// on either side of it.
///
/// This is stated for the placeholders that do not begin with the
/// placeholder of an earlier substituted argument, as `$10` begins with `$1`,
/// and for the renderings that hold no placeholder of a later one.
pub proof fn law_placeholder_replaced(
    before: Seq<char>,
    after: Seq<char>,
    args: Seq<ArgView>,
    i: nat,
)
    requires
        i < args.len(),
        rendering(args[i as int]) is Some,
        forall|k: nat|
            k < i && rendering(args[k as int]) is Some ==> !starts_with(
                placeholder(i),
                #[trigger] placeholder(k),
            ),
        forall|k: nat|
            i < k < args.len() && rendering(args[k as int]) is Some ==> !occurs_in(
                rendering(args[i as int])->0,
                #[trigger] placeholder(k),
            ),
    ensures
        substituted(before + placeholder(i) + after, args) == substituted(before, args)
            + rendering(args[i as int])->0 + substituted(after, args),
{
    let n = args.len();
    let pi = placeholder(i);
    let r = rendering(args[i as int])->0;
    let text = before + pi + after;
    // The passes of the earlier arguments leave the placeholder where it is.
    assert forall|k: nat| k < i && rendering(args[k as int]) is Some implies inert(
        pi,
        #[trigger] placeholder(k),
    ) by {
        lemma_placeholder_inert(i, k);
    }
    lemma_segment_stays(before, pi, after, args, 0, i);
    let a1 = passes(before, args, 0, i);
    let b1 = passes(after, args, 0, i);
    // Its own pass replaces it.
    lemma_placeholder_shape(i);
    assert forall|p: int| #[trigger] occurs_at(a1 + pi + b1, pi, p) implies p + pi.len()
        <= a1.len() || a1.len() <= p by {
        let s = a1 + pi + b1;
        let start = a1.len() as int;
        if p < start && start < p + pi.len() {
            let w = s.subrange(p, p + pi.len());
            assert(w[start - p] == s[start]);
            assert(s[start] == pi[0]);
            assert(is_digit(pi[start - p]));
        }
    }
    lemma_replaced_at(a1, b1, pi, r);
    let a2 = passes(before, args, 0, i + 1);
    let b2 = passes(after, args, 0, i + 1);
    assert(passes(text, args, 0, i + 1) == a2 + r + b2);
    // The passes of the later arguments leave its rendering as it is.
    lemma_rendering_plain_ends(args[i as int]);
    assert forall|k: nat| i + 1 <= k < n && rendering(args[k as int]) is Some implies inert(
        r,
        #[trigger] placeholder(k),
    ) by {
        lemma_text_inert(r, k);
    }
    lemma_segment_stays(a2, r, b2, args, i + 1, n);
    lemma_passes_split(text, args, 0, i + 1, n);
    lemma_passes_split(before, args, 0, i + 1, n);
    lemma_passes_split(after, args, 0, i + 1, n);
}

/// A message whose address is not in the command table gets one reply and no
/// command: the reply `/error` with the address of the message and the words
/// `unknown command`.
pub proof fn law_unknown_address(commands: Map<Seq<char>, Seq<char>>, message: MessageView)
    requires
        !commands.contains_key(message.addr),
    ensures
        resolved(commands, message) == ResolutionView::Reply(unknown_command_reply(message.addr)),
        reply_message(unknown_command_reply(message.addr)) == (MessageView {
            addr: "/error"@,
            args: seq![ArgView::String(message.addr), ArgView::String("unknown command"@)],
        }),
        resolved_all(commands, seq![message]).len() == 1,
{
}

/// The messages of two lists of packets, one after the other, are the
/// messages of the first list, then those of the second.
pub proof fn law_flat_in_order(first: Seq<PacketView>, second: Seq<PacketView>)
    ensures
        flat_all(first + second) == flat_all(first) + flat_all(second),
    decreases second.len(),
{
    if second.len() == 0 {
        assert(first + second =~= first);
        assert(flat_all(first) + flat_all(second) =~= flat_all(first));
    } else {
        law_flat_in_order(first, second.drop_last());
        assert((first + second).drop_last() =~= first + second.drop_last());
        assert(flat_all(first) + (flat_all(second.drop_last()) + flat(second.last()))
            =~= flat_all(first) + flat_all(second.drop_last()) + flat(second.last()));
    }
}

/// A bundle of a message and of a bundle of two messages gives the three
/// messages, in their declared order.
pub proof fn law_nested_bundle_flattens(
    a: MessageView,
    b: MessageView,
    c: MessageView,
    outer: TimeTag,
    inner: TimeTag,
)
    ensures
        flat(
            PacketView::Bundle {
                timetag: outer,
                content: seq![
                    PacketView::Message(a),
                    PacketView::Bundle {
                        timetag: inner,
                        content: seq![PacketView::Message(b), PacketView::Message(c)],
                    },
                ],
            },
        ) == seq![a, b, c],
{
    let pa = PacketView::Message(a);
    let pb = PacketView::Message(b);
    let pc = PacketView::Message(c);
    let nested = PacketView::Bundle { timetag: inner, content: seq![pb, pc] };
    lemma_flat_one(pa);
    lemma_flat_one(pb);
    lemma_flat_one(pc);
    lemma_flat_one(nested);
    law_flat_in_order(seq![pb], seq![pc]);
    assert(seq![pb] + seq![pc] =~= seq![pb, pc]);
    law_flat_in_order(seq![pa], seq![nested]);
    assert(seq![pa] + seq![nested] =~= seq![pa, nested]);
    assert(seq![a] + (seq![b] + seq![c]) =~= seq![a, b, c]);
}

/// The messages of a list of one packet are the messages of that packet.
pub proof fn lemma_flat_one(packet: PacketView)
    ensures
        flat_all(seq![packet]) == flat(packet),
{
    let one = seq![packet];
    assert(one.drop_last() =~= Seq::<PacketView>::empty());
    assert(flat_all(one.drop_last()) =~= Seq::<MessageView>::empty());
    assert(flat_all(one) == flat_all(one.drop_last()) + flat(one.last()));
    assert(Seq::<MessageView>::empty() + flat(packet) =~= flat(packet));
}

/// Every message of a packet gets its own resolution, whatever becomes of the
/// messages beside it: as many resolutions as messages, each the resolution
/// of the message at its place.
pub proof fn law_messages_resolved_independently(
    commands: Map<Seq<char>, Seq<char>>,
    packet: PacketView,
    i: int,
)
    requires
        0 <= i < flat(packet).len(),
    ensures
        resolved_all(commands, flat(packet)).len() == flat(packet).len(),
        resolved_all(commands, flat(packet))[i] == resolved(commands, flat(packet)[i]),
{
}

/// Whether `text` holds no zero character.
pub open spec fn zero_free(text: Seq<char>) -> bool {
    forall|i: int| 0 <= i < text.len() ==> #[trigger] text[i] as u32 != 0
}

proof fn lemma_scalar_bytes_not_zero(c: u32)
    by (bit_vector)
    requires
        c != 0,
    ensures
        has_width_1_encoding(c) ==> leading_byte_width_1(c) != 0,
        leading_byte_width_2(c) != 0,
        leading_byte_width_3(c) != 0,
        leading_byte_width_4(c) != 0,
        last_continuation_byte(c) != 0,
        second_last_continuation_byte(c) != 0,
        third_last_continuation_byte(c) != 0,
{
}

/// The UTF-8 bytes of a text without zero character hold no zero byte.
pub proof fn lemma_utf8_not_zero(text: Seq<char>)
    requires
        zero_free(text),
    ensures
        forall|k: int| 0 <= k < encode_utf8(text).len() ==> #[trigger] encode_utf8(text)[k] != 0,
    decreases text.len(),
{
    if text.len() > 0 {
        let first = encode_scalar(text[0] as u32);
        let rest = text.drop_first();
        assert(text[0] as u32 != 0);
        lemma_scalar_bytes_not_zero(text[0] as u32);
        assert forall|i: int| 0 <= i < rest.len() implies #[trigger] rest[i] as u32 != 0 by {
            assert(rest[i] == text[i + 1]);
        }
        lemma_utf8_not_zero(rest);
        assert forall|k: int| 0 <= k < encode_utf8(text).len() implies #[trigger] encode_utf8(
            text,
        )[k] != 0 by {
            if k >= first.len() {
                assert(encode_utf8(text)[k] == encode_utf8(rest)[k - first.len()]);
            }
        }
    }
}

/// Two encoded strings without zero character that begin the same bytes are
/// the same string, and what follows them is the same.
pub proof fn lemma_osc_string_apart(
    a: Seq<char>,
    after_a: Seq<u8>,
    b: Seq<char>,
    after_b: Seq<u8>,
)
    requires
        zero_free(a),
        zero_free(b),
        osc_string(a) + after_a == osc_string(b) + after_b,
    ensures
        a == b,
        after_a == after_b,
{
    let ua = encode_utf8(a);
    let ub = encode_utf8(b);
    let left = osc_string(a) + after_a;
    let right = osc_string(b) + after_b;
    lemma_utf8_not_zero(a);
    lemma_utf8_not_zero(b);
    if ua.len() < ub.len() {
        assert(left[ua.len() as int] == zeros((4 - ua.len() % 4) as nat)[0]);
        assert(right[ua.len() as int] == ub[ua.len() as int]);
    } else if ub.len() < ua.len() {
        assert(right[ub.len() as int] == zeros((4 - ub.len() % 4) as nat)[0]);
        assert(left[ub.len() as int] == ua[ub.len() as int]);
    } else {
        assert(ua =~= ub) by {
            assert forall|k: int| 0 <= k < ua.len() implies ua[k] == ub[k] by {
                assert(left[k] == ua[k]);
                assert(right[k] == ub[k]);
            }
        }
        encode_utf8_decode_utf8(a);
        encode_utf8_decode_utf8(b);
        assert(after_a =~= left.skip(osc_string(a).len() as int));
        assert(after_b =~= right.skip(osc_string(b).len() as int));
    }
}

/// The bytes of a reply tell the reply: two replies without zero character
/// in their texts that have the same bytes are the same reply. A zero
/// character ends a string on the wire, so a text that holds one is not told
/// apart from the text before it.
pub proof fn law_reply_bytes_tell_the_reply(first: ReplyView, second: ReplyView)
    requires
        zero_free(first.origin) && zero_free(first.detail),
        zero_free(second.origin) && zero_free(second.detail),
        reply_bytes(first) == reply_bytes(second),
    ensures
        first == second,
{
    reveal_strlit("/success");
    reveal_strlit("/error");
    let tags = seq![0x2cu8, 0x73u8, 0x73u8, 0x00u8];
    let none = Seq::<u8>::empty();
    let tail1 = tags + (osc_string(first.origin) + (osc_string(first.detail) + none));
    let tail2 = tags + (osc_string(second.origin) + (osc_string(second.detail) + none));
    assert(reply_bytes(first) =~= osc_string(reply_address(first.kind)) + tail1);
    assert(reply_bytes(second) =~= osc_string(reply_address(second.kind)) + tail2);
    assert(zero_free(reply_address(ReplyKind::Success)));
    assert(zero_free(reply_address(ReplyKind::Error)));
    lemma_osc_string_apart(
        reply_address(first.kind),
        tail1,
        reply_address(second.kind),
        tail2,
    );
    assert(reply_address(ReplyKind::Success).len() != reply_address(ReplyKind::Error).len());
    assert(first.kind == second.kind);
    let rest1 = osc_string(first.origin) + (osc_string(first.detail) + none);
    let rest2 = osc_string(second.origin) + (osc_string(second.detail) + none);
    assert(rest1 =~= tail1.skip(4));
    assert(rest2 =~= tail2.skip(4));
    lemma_osc_string_apart(
        first.origin,
        osc_string(first.detail) + none,
        second.origin,
        osc_string(second.detail) + none,
    );
    lemma_osc_string_apart(first.detail, none, second.detail, none);
}

} // verus!
