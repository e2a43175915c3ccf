//! Train/test splitting of a chronological message stream.
//!
//! The splitter walks the messages in order and keeps a current partition
//! (train or test). At a message separated from its predecessor by more than
//! the session timeout, and from the current split segment's anchor by more
//! than the flip timeout, a fresh boolean decision is consumed and becomes
//! the current partition; the anchor resets to that message. Messages are
//! never reordered: each partition receives a subsequence of the input.
//!
//! The decisions are supplied as a sequence of booleans, one consumed per
//! flip, drawn ahead of time from a seeded pseudo-random source by the
//! caller; the split is a pure function of the messages and the decisions.

use vstd::prelude::*;
use crate::msg::TaggedMessage;
use crate::timeline::{spec_split_decision_point, ts_in_range, gap_days, gap_seconds};

verus! {

/// Whether the messages are in chronological order.
pub open spec fn spec_sorted(msgs: Seq<TaggedMessage>) -> bool {
    forall|i: int, j: int|
        0 <= i < j < msgs.len() ==> #[trigger] msgs[i].timestamp <= #[trigger] msgs[j].timestamp
}

/// The partition tag (true for train) of each message of `ts`, walked from a
/// state of current partition `is_train`, split-segment anchor `anchor`,
/// previous timestamp `last`, and `k` decisions already consumed from
/// `draws`.
pub open spec fn spec_split_tags(
    ts: Seq<i64>,
    draws: Seq<bool>,
    is_train: bool,
    anchor: i64,
    last: i64,
    k: int,
) -> Seq<bool>
    decreases ts.len(),
{
    if ts.len() == 0 {
        Seq::empty()
    } else {
        let t = ts[0];
        if spec_split_decision_point(last, anchor, t) {
            seq![draws[k]] + spec_split_tags(ts.drop_first(), draws, draws[k], t, t, k + 1)
        } else {
            seq![is_train] + spec_split_tags(ts.drop_first(), draws, is_train, anchor, t, k)
        }
    }
}

/// The partition tag (true for train) of each message.
pub open spec fn spec_train_tags(msgs: Seq<TaggedMessage>, draws: Seq<bool>) -> Seq<bool>
    recommends
        msgs.len() > 0,
{
    spec_split_tags(
        msgs.map_values(|m: TaggedMessage| m.timestamp),
        draws,
        true,
        msgs[0].timestamp,
        msgs[0].timestamp,
        0,
    )
}

/// The items whose tag equals `v`, in their original order.
pub open spec fn spec_select<A>(items: Seq<A>, keep: Seq<bool>, v: bool) -> Seq<A>
    recommends
        keep.len() == items.len(),
    decreases items.len(),
{
    if items.len() == 0 {
        Seq::empty()
    } else {
        let rest = spec_select(items.drop_first(), keep.drop_first(), v);
        if keep[0] == v {
            seq![items[0]] + rest
        } else {
            rest
        }
    }
}

/// There is one tag per message.
proof fn lemma_split_tags_len(
    ts: Seq<i64>,
    draws: Seq<bool>,
    is_train: bool,
    anchor: i64,
    last: i64,
    k: int,
)
    ensures
        spec_split_tags(ts, draws, is_train, anchor, last, k).len() == ts.len(),
    decreases ts.len(),
{
    if ts.len() > 0 {
        let t = ts[0];
        if spec_split_decision_point(last, anchor, t) {
            lemma_split_tags_len(ts.drop_first(), draws, draws[k], t, t, k + 1);
        } else {
            lemma_split_tags_len(ts.drop_first(), draws, is_train, anchor, t, k);
        }
    }
}

proof fn lemma_select_push<A>(items: Seq<A>, keep: Seq<bool>, x: A, b: bool, v: bool)
    requires
        keep.len() == items.len(),
    ensures
        spec_select(items.push(x), keep.push(b), v) == spec_select(items, keep, v) + (if b == v {
            seq![x]
        } else {
            Seq::<A>::empty()
        }),
    decreases items.len(),
{
    if items.len() == 0 {
        assert(items.push(x).drop_first() =~= Seq::<A>::empty());
        assert(keep.push(b).drop_first() =~= Seq::<bool>::empty());
        assert(items.push(x)[0] == x);
        assert(keep.push(b)[0] == b);
        assert(spec_select(Seq::<A>::empty(), Seq::<bool>::empty(), v) == Seq::<A>::empty());
        assert(spec_select(items, keep, v) == Seq::<A>::empty());
        if b == v {
            assert(spec_select(items.push(x), keep.push(b), v) == seq![x] + Seq::<A>::empty());
            assert(seq![x] + Seq::<A>::empty() =~= Seq::<A>::empty() + seq![x]);
        } else {
            assert(spec_select(items.push(x), keep.push(b), v) =~= spec_select(items, keep, v));
        }
    } else {
        assert(items.push(x).drop_first() =~= items.drop_first().push(x));
        assert(keep.push(b).drop_first() =~= keep.drop_first().push(b));
        lemma_select_push(items.drop_first(), keep.drop_first(), x, b, v);
        assert(items.push(x)[0] == items[0]);
        assert(keep.push(b)[0] == keep[0]);
        if keep[0] == v {
            assert(spec_select(items.push(x), keep.push(b), v) =~= spec_select(items, keep, v)
                + (if b == v {
                seq![x]
            } else {
                Seq::<A>::empty()
            }));
        } else {
            assert(spec_select(items.push(x), keep.push(b), v) =~= spec_select(items, keep, v)
                + (if b == v {
                seq![x]
            } else {
                Seq::<A>::empty()
            }));
        }
    }
}

/// The split is a function of the message sequence and the decision sequence
/// alone: two invocations with the same decisions and the same input produce
/// identical train/test assignments.
pub proof fn lemma_split_deterministic(
    msgs1: Seq<TaggedMessage>,
    draws1: Seq<bool>,
    msgs2: Seq<TaggedMessage>,
    draws2: Seq<bool>,
)
    requires
        msgs1 == msgs2,
        draws1 == draws2,
    ensures
        spec_select(msgs1, spec_train_tags(msgs1, draws1), true) == spec_select(
            msgs2,
            spec_train_tags(msgs2, draws2),
            true,
        ),
        spec_select(msgs1, spec_train_tags(msgs1, draws1), false) == spec_select(
            msgs2,
            spec_train_tags(msgs2, draws2),
            false,
        ),
{
}

proof fn lemma_select_membership<A>(items: Seq<A>, keep: Seq<bool>, v: bool)
    requires
        keep.len() == items.len(),
    ensures
        forall|j: int|
            0 <= j < spec_select(items, keep, v).len() ==> exists|i: int|
                0 <= i < items.len() && #[trigger] spec_select(items, keep, v)[j] == items[i],
    decreases items.len(),
{
    if items.len() == 0 {
    } else {
        let sel = spec_select(items, keep, v);
        let rest = spec_select(items.drop_first(), keep.drop_first(), v);
        lemma_select_membership(items.drop_first(), keep.drop_first(), v);
        assert forall|j: int| 0 <= j < sel.len() implies exists|i: int|
            0 <= i < items.len() && #[trigger] sel[j] == items[i] by {
            if keep[0] == v {
                if j == 0 {
                    assert(sel[0] == items[0]);
                } else {
                    assert(sel[j] == rest[j - 1]);
                    let i0 = choose|i: int|
                        0 <= i < items.drop_first().len() && rest[j - 1] == items.drop_first()[i];
                    assert(sel[j] == items[i0 + 1]);
                }
            } else {
                assert(sel[j] == rest[j]);
                let i0 = choose|i: int|
                    0 <= i < items.drop_first().len() && rest[j] == items.drop_first()[i];
                assert(sel[j] == items[i0 + 1]);
            }
        }
    }
}

/// Whichever decisions are drawn, each partition receives its messages in
/// the input's chronological order: the splitter never reorders messages.
pub proof fn lemma_split_preserves_order(msgs: Seq<TaggedMessage>, draws: Seq<bool>, v: bool)
    requires
        msgs.len() > 0,
        spec_sorted(msgs),
    ensures
        spec_sorted(spec_select(msgs, spec_train_tags(msgs, draws), v)),
{
    let ts = msgs.map_values(|m: TaggedMessage| m.timestamp);
    lemma_split_tags_len(ts, draws, true, msgs[0].timestamp, msgs[0].timestamp, 0);
    lemma_select_sorted(msgs, spec_train_tags(msgs, draws), v);
}

proof fn lemma_select_sorted(msgs: Seq<TaggedMessage>, keep: Seq<bool>, v: bool)
    requires
        keep.len() == msgs.len(),
        spec_sorted(msgs),
    ensures
        spec_sorted(spec_select(msgs, keep, v)),
    decreases msgs.len(),
{
    if msgs.len() == 0 {
    } else {
        let sel = spec_select(msgs, keep, v);
        let tail = msgs.drop_first();
        let rest = spec_select(tail, keep.drop_first(), v);
        assert(spec_sorted(tail)) by {
            assert(forall|i: int| 0 <= i < tail.len() ==> tail[i] == msgs[i + 1]);
        }
        lemma_select_sorted(tail, keep.drop_first(), v);
        lemma_select_membership(tail, keep.drop_first(), v);
        if keep[0] == v {
            assert forall|i: int, j: int| 0 <= i < j < sel.len() implies sel[i].timestamp
                <= sel[j].timestamp by {
                if i == 0 {
                    assert(sel[j] == rest[j - 1]);
                    let i0 = choose|x: int| 0 <= x < tail.len() && rest[j - 1] == tail[x];
                    assert(tail[i0] == msgs[i0 + 1]);
                    assert(msgs[0].timestamp <= msgs[i0 + 1].timestamp);
                } else {
                    assert(sel[i] == rest[i - 1] && sel[j] == rest[j - 1]);
                    assert(rest[i - 1].timestamp <= rest[j - 1].timestamp);
                }
            }
        } else {
            assert(sel == rest);
        }
    }
}

proof fn lemma_tags_constant(
    ts: Seq<i64>,
    draws: Seq<bool>,
    is_train: bool,
    anchor: i64,
    last: i64,
    k: int,
)
    requires
        ts.len() > 0 ==> !crate::timeline::spec_session_boundary(last, ts[0]),
        forall|i: int|
            #![trigger ts[i]]
            0 < i < ts.len() ==> !crate::timeline::spec_session_boundary(ts[i - 1], ts[i]),
    ensures
        spec_split_tags(ts, draws, is_train, anchor, last, k) == Seq::new(
            ts.len(),
            |i: int| is_train,
        ),
    decreases ts.len(),
{
    if ts.len() == 0 {
        assert(spec_split_tags(ts, draws, is_train, anchor, last, k) =~= Seq::new(
            ts.len(),
            |i: int| is_train,
        ));
    } else {
        let t = ts[0];
        assert(!spec_split_decision_point(last, anchor, t));
        let rest = ts.drop_first();
        if rest.len() > 0 {
            assert(rest[0] == ts[1]);
            assert(!crate::timeline::spec_session_boundary(ts[0], ts[1]));
        }
        assert forall|i: int| #![trigger rest[i]] 0 < i < rest.len() implies !crate::timeline::spec_session_boundary(
            rest[i - 1],
            rest[i],
        ) by {
            assert(rest[i] == ts[i + 1]);
            assert(rest[i - 1] == ts[i]);
        }
        lemma_tags_constant(rest, draws, is_train, anchor, t, k);
        assert(spec_split_tags(ts, draws, is_train, anchor, last, k) =~= Seq::new(
            ts.len(),
            |i: int| is_train,
        ));
    }
}

proof fn lemma_select_uniform<A>(items: Seq<A>, keep: Seq<bool>, v: bool)
    requires
        keep.len() == items.len(),
        forall|i: int| 0 <= i < keep.len() ==> keep[i] == v,
    ensures
        spec_select(items, keep, v) == items,
        spec_select(items, keep, !v) == Seq::<A>::empty(),
    decreases items.len(),
{
    if items.len() == 0 {
        assert(spec_select(items, keep, v) =~= items);
    } else {
        lemma_select_uniform(items.drop_first(), keep.drop_first(), v);
        assert(spec_select(items, keep, v) =~= seq![items[0]] + items.drop_first());
        assert(seq![items[0]] + items.drop_first() =~= items);
    }
}

/// Within a run of messages whose inactivity gaps never exceed the session
/// timeout, the splitter never flips: every message receives the same
/// partition tag, so the whole run lands in the train partition it started
/// in and the test partition stays empty.
pub proof fn lemma_split_no_fragmentation(msgs: Seq<TaggedMessage>, draws: Seq<bool>)
    requires
        msgs.len() > 0,
        forall|i: int|
            #![trigger msgs[i]]
            0 < i < msgs.len() ==> !crate::timeline::spec_session_boundary(
                msgs[i - 1].timestamp,
                msgs[i].timestamp,
            ),
    ensures
        spec_select(msgs, spec_train_tags(msgs, draws), true) == msgs,
        spec_select(msgs, spec_train_tags(msgs, draws), false) == Seq::<TaggedMessage>::empty(),
{
    let ts = msgs.map_values(|m: TaggedMessage| m.timestamp);
    assert(crate::timeline::spec_gap_seconds(msgs[0].timestamp, ts[0]) == 0) by {
        assert(ts[0] == msgs[0].timestamp);
    }
    assert(!crate::timeline::spec_session_boundary(msgs[0].timestamp, ts[0]));
    assert forall|i: int| #![trigger ts[i]] 0 < i < ts.len() implies !crate::timeline::spec_session_boundary(
        ts[i - 1],
        ts[i],
    ) by {
        assert(ts[i] == msgs[i].timestamp);
        assert(ts[i - 1] == msgs[i - 1].timestamp);
    }
    lemma_tags_constant(ts, draws, true, msgs[0].timestamp, msgs[0].timestamp, 0);
    let tags = spec_train_tags(msgs, draws);
    assert(tags.len() == msgs.len());
    assert(forall|i: int| 0 <= i < tags.len() ==> tags[i] == true);
    lemma_select_uniform(msgs, tags, true);
}

/// Splits a chronological message stream into train and test partitions.
///
/// One decision is consumed from `draws` at each flip point, so `draws` needs
/// at most one decision per message.
pub fn train_test(conversation: Vec<TaggedMessage>, draws: &Vec<bool>) -> (r: (
    Vec<TaggedMessage>,
    Vec<TaggedMessage>,
))
    requires
        conversation@.len() > 0,
        draws@.len() >= conversation@.len(),
        forall|i: int|
            0 <= i < conversation@.len() ==> ts_in_range(#[trigger] conversation@[i].timestamp),
        spec_sorted(conversation@),
    ensures
        r.0@ == spec_select(conversation@, spec_train_tags(conversation@, draws@), true),
        r.1@ == spec_select(conversation@, spec_train_tags(conversation@, draws@), false),
{
    let ghost msgs = conversation@;
    let ghost ts = conversation@.map_values(|m: TaggedMessage| m.timestamp);
    let ghost tags = spec_train_tags(conversation@, draws@);
    proof {
        lemma_split_tags_len(ts, draws@, true, msgs[0].timestamp, msgs[0].timestamp, 0);
        assert(ts.skip(0) =~= ts);
        assert(tags.skip(0) =~= tags);
        assert(msgs.take(0) =~= Seq::<TaggedMessage>::empty());
        assert(tags.take(0) =~= Seq::<bool>::empty());
    }
    let mut train_msgs: Vec<TaggedMessage> = Vec::new();
    let mut test_msgs: Vec<TaggedMessage> = Vec::new();
    let mut is_train: bool = true;
    let mut conversation_timestamp: i64 = conversation[0].timestamp;
    let mut last_timestamp: i64 = conversation[0].timestamp;
    let mut k: usize = 0;
    let mut i: usize = 0;
    let len = conversation.len();
    let mut conversation = conversation;
    while i < len
        invariant
            len == msgs.len(),
            conversation@ == msgs.skip(i as int),
            ts == msgs.map_values(|m: TaggedMessage| m.timestamp),
            tags == spec_train_tags(msgs, draws@),
            tags.len() == msgs.len(),
            draws@.len() >= msgs.len(),
            forall|j: int| 0 <= j < msgs.len() ==> ts_in_range(#[trigger] msgs[j].timestamp),
            spec_sorted(msgs),
            0 <= i <= len,
            k <= i,
            ts_in_range(conversation_timestamp),
            ts_in_range(last_timestamp),
            conversation_timestamp <= last_timestamp,
            i < len ==> last_timestamp <= msgs[i as int].timestamp,
            i == 0 ==> last_timestamp == msgs[0].timestamp && conversation_timestamp == msgs[0].timestamp && is_train,
            tags.skip(i as int) == spec_split_tags(
                ts.skip(i as int),
                draws@,
                is_train,
                conversation_timestamp,
                last_timestamp,
                k as int,
            ),
            train_msgs@ == spec_select(msgs.take(i as int), tags.take(i as int), true),
            test_msgs@ == spec_select(msgs.take(i as int), tags.take(i as int), false),
        decreases len - i,
    {
        let t: i64 = conversation[0].timestamp;
        proof {
            assert(conversation@[0] == msgs[i as int]);
            assert(ts.skip(i as int)[0] == ts[i as int]);
            assert(ts[i as int] == msgs[i as int].timestamp);
        }
        let flip = gap_seconds(last_timestamp, t) > crate::CONVERSATION_TIMEOUT && gap_days(
            conversation_timestamp,
            t,
        ) > crate::TRAIN_TEST_TIMEOUT;
        let ghost old_state = (is_train, conversation_timestamp, last_timestamp, k as int);
        if flip {
            is_train = draws[k];
            k = k + 1;
            conversation_timestamp = t;
        }
        last_timestamp = t;
        proof {
            assert(flip == spec_split_decision_point(old_state.2, old_state.1, t));
            assert(ts.skip(i as int).drop_first() =~= ts.skip(i as int + 1));
            assert(spec_split_tags(
                ts.skip(i as int),
                draws@,
                old_state.0,
                old_state.1,
                old_state.2,
                old_state.3,
            ) == seq![is_train] + spec_split_tags(
                ts.skip(i as int + 1),
                draws@,
                is_train,
                conversation_timestamp,
                last_timestamp,
                k as int,
            ));
            assert(tags.skip(i as int)[0] == tags[i as int]);
            assert(tags[i as int] == is_train);
            assert(tags.skip(i as int).drop_first() =~= tags.skip(i as int + 1));
        }
        let m = conversation.remove(0);
        proof {
            assert(msgs.skip(i as int).remove(0) =~= msgs.skip(i as int + 1));
        }
        if is_train {
            train_msgs.push(m);
        } else {
            test_msgs.push(m);
        }
        proof {
            lemma_select_push(msgs.take(i as int), tags.take(i as int), msgs[i as int], is_train, true);
            lemma_select_push(msgs.take(i as int), tags.take(i as int), msgs[i as int], is_train, false);
            assert(msgs.take(i as int + 1) =~= msgs.take(i as int).push(msgs[i as int]));
            assert(tags.take(i as int + 1) =~= tags.take(i as int).push(tags[i as int]));
            if is_train {
                assert(train_msgs@ =~= spec_select(msgs.take(i as int + 1), tags.take(i as int + 1), true));
                assert(test_msgs@ =~= spec_select(msgs.take(i as int + 1), tags.take(i as int + 1), false));
            } else {
                assert(train_msgs@ =~= spec_select(msgs.take(i as int + 1), tags.take(i as int + 1), true));
                assert(test_msgs@ =~= spec_select(msgs.take(i as int + 1), tags.take(i as int + 1), false));
            }
        }
        i = i + 1;
    }
    proof {
        assert(msgs.take(len as int) =~= msgs);
        assert(tags.take(len as int) =~= tags);
    }
    (train_msgs, test_msgs)
}

} // verus!
