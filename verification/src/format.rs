//! Rendering of a tagged message stream to corpus text.
//!
//! The stream is cut into segments wherever the conversation identity
//! changes or an inactivity gap exceeds the session timeout. A closing
//! segment is rendered as a header line naming its participants followed by
//! its message lines, joined by the end-of-message delimiter; segments are
//! joined by the end-of-conversation delimiter. Each message line carries
//! the segment anchor's calendar month and year, the message's offset in
//! seconds from the anchor, its author and its content.

use vstd::prelude::*;
use vstd::string::StringExecFns;
use std::collections::HashMap;
use crate::calendar::{month_of, month_year_of, year_of};
use crate::msg::{spec_participant_names, Participant, TaggedMessage};
use crate::numfmt::{i64_to_dec, spec_dec_int, spec_dec_nat, u64_to_dec};
use crate::split::spec_sorted;
use crate::strutil::{join_strings, push_char, spec_join_sep};
use crate::timeline::{gap_seconds, is_session_boundary, spec_gap_seconds, spec_session_boundary, ts_in_range};

verus! {

/// One rendered message line.
pub open spec fn spec_msg_line(anchor: i64, m: TaggedMessage) -> Seq<char> {
    seq!['|'] + spec_dec_nat(month_of(anchor) as int) + seq![' '] + spec_dec_int(
        year_of(anchor) as int,
    ) + seq![' '] + spec_dec_int(spec_gap_seconds(anchor, m.timestamp)) + seq![' '] + m.author@
        + seq!['|', ':', ' '] + m.content@ + seq!['\n']
}

/// One rendered segment header line: the participant names joined by single
/// spaces, wrapped in `|...|`.
pub open spec fn spec_header_line(ps: Seq<Participant>) -> Seq<char> {
    seq!['|'] + spec_join_sep(spec_participant_names(ps), seq![' ']) + seq!['|', '\n']
}

/// The rendered texts of the segments of the messages, walked from an open
/// segment holding the lines `cur` for conversation `cur_id` with anchor
/// `anchor`, the previous message having carried timestamp `last`. A segment
/// closes when the conversation changes or an inactivity gap passes the
/// session timeout; the segment still open once the input is exhausted is
/// emitted last.
pub open spec fn spec_format_segments(
    parts: Map<usize, Vec<Participant>>,
    msgs: Seq<TaggedMessage>,
    eom: Seq<char>,
    cur: Seq<Seq<char>>,
    cur_id: usize,
    anchor: i64,
    last: i64,
) -> Seq<Seq<char>>
    decreases msgs.len(),
{
    if msgs.len() == 0 {
        seq![spec_join_sep(seq![spec_header_line(parts[cur_id]@)] + cur, eom)]
    } else {
        let m = msgs[0];
        if m.conversation_id != cur_id || spec_session_boundary(last, m.timestamp) {
            let seg = spec_join_sep(seq![spec_header_line(parts[cur_id]@)] + cur, eom);
            seq![seg] + spec_format_segments(
                parts,
                msgs.drop_first(),
                eom,
                seq![spec_msg_line(m.timestamp, m)],
                m.conversation_id,
                m.timestamp,
                m.timestamp,
            )
        } else {
            spec_format_segments(
                parts,
                msgs.drop_first(),
                eom,
                cur.push(spec_msg_line(anchor, m)),
                cur_id,
                anchor,
                m.timestamp,
            )
        }
    }
}

/// The full rendered text of a tagged message stream: the closed segments
/// joined by the end-of-conversation delimiter, and nothing for an empty
/// stream.
pub open spec fn spec_format(
    parts: Map<usize, Vec<Participant>>,
    msgs: Seq<TaggedMessage>,
    eom: Seq<char>,
    eoc: Seq<char>,
) -> Seq<char> {
    if msgs.len() == 0 {
        Seq::empty()
    } else {
        spec_join_sep(
            spec_format_segments(
                parts,
                msgs,
                eom,
                Seq::empty(),
                msgs[0].conversation_id,
                msgs[0].timestamp,
                msgs[0].timestamp,
            ),
            eoc,
        )
    }
}

/// Renders one message line.
fn render_line(anchor: i64, m: &TaggedMessage) -> (r: String)
    requires
        ts_in_range(anchor),
        ts_in_range(m.timestamp),
        anchor <= m.timestamp,
    ensures
        r@ == spec_msg_line(anchor, *m),
{
    let my = month_year_of(anchor);
    let mut s = String::new();
    push_char(&mut s, '|');
    let mon = u64_to_dec(my.0 as u64);
    s.append(mon.as_str());
    push_char(&mut s, ' ');
    let yr = i64_to_dec(my.1 as i64);
    s.append(yr.as_str());
    push_char(&mut s, ' ');
    let secs = i64_to_dec(gap_seconds(anchor, m.timestamp));
    s.append(secs.as_str());
    push_char(&mut s, ' ');
    s.append(m.author.as_str());
    push_char(&mut s, '|');
    push_char(&mut s, ':');
    push_char(&mut s, ' ');
    s.append(m.content.as_str());
    push_char(&mut s, '\n');
    proof {
        assert(s@ =~= spec_msg_line(anchor, *m));
    }
    s
}

/// Renders one segment header line.
fn render_header(ps: &Vec<Participant>) -> (r: String)
    ensures
        r@ == spec_header_line(ps@),
{
    let mut names: Vec<String> = Vec::new();
    let mut i: usize = 0;
    while i < ps.len()
        invariant
            0 <= i <= ps@.len(),
            names@.len() == i,
            forall|j: int| 0 <= j < i ==> names@[j]@ == #[trigger] ps@[j].name@,
        decreases ps@.len() - i,
    {
        names.push(ps[i].name.clone());
        i = i + 1;
    }
    let joined = join_strings(&names, " ");
    let mut s = String::new();
    push_char(&mut s, '|');
    s.append(joined.as_str());
    push_char(&mut s, '|');
    push_char(&mut s, '\n');
    proof {
        reveal_strlit(" ");
        assert(" "@ =~= seq![' ']);
        assert(names@.map_values(|n: String| n@) =~= spec_participant_names(ps@));
        assert(s@ =~= spec_header_line(ps@));
    }
    s
}

/// Renders a tagged message stream, with the participant lists of the
/// conversations it draws from keyed by conversation identity.
pub fn format_conversation(
    idx_to_participants: &HashMap<usize, Vec<Participant>>,
    conversation: &Vec<TaggedMessage>,
    eom: &str,
    eoc: &str,
) -> (r: String)
    requires
        forall|i: int|
            0 <= i < conversation@.len() ==> ts_in_range(#[trigger] conversation@[i].timestamp),
        spec_sorted(conversation@),
        forall|i: int|
            0 <= i < conversation@.len() ==> idx_to_participants@.contains_key(
                (#[trigger] conversation@[i]).conversation_id,
            ),
    ensures
        r@ == spec_format(idx_to_participants@, conversation@, eom@, eoc@),
        conversation@.len() == 0 ==> r@ == Seq::<char>::empty(),
{
    broadcast use vstd::std_specs::hash::group_hash_axioms;

    let ghost msgs = conversation@;
    let ghost parts = idx_to_participants@;
    if conversation.len() == 0 {
        return String::new();
    }
    let ghost full_segs = spec_format_segments(
        parts,
        msgs,
        eom@,
        Seq::empty(),
        msgs[0].conversation_id,
        msgs[0].timestamp,
        msgs[0].timestamp,
    );
    let mut all_message_strs: Vec<String> = Vec::new();
    let mut current_conversation_strs: Vec<String> = Vec::new();
    let mut current_conversation_id: usize = conversation[0].conversation_id;
    let mut conversation_timestamp: i64 = conversation[0].timestamp;
    let mut last_timestamp: i64 = conversation[0].timestamp;
    let mut i: usize = 0;
    proof {
        assert(msgs.skip(0) =~= msgs);
        assert(all_message_strs@.map_values(|s: String| s@) =~= Seq::<Seq<char>>::empty());
        assert(current_conversation_strs@.map_values(|s: String| s@) =~= Seq::<Seq<
            char,
        >>::empty());
        assert(Seq::<Seq<char>>::empty() + full_segs =~= full_segs);
    }
    while i < conversation.len()
        invariant
            msgs == conversation@,
            parts == idx_to_participants@,
            msgs.len() > 0,
            0 <= i <= msgs.len(),
            forall|j: int| 0 <= j < msgs.len() ==> ts_in_range(#[trigger] msgs[j].timestamp),
            spec_sorted(msgs),
            forall|j: int|
                0 <= j < msgs.len() ==> parts.contains_key((#[trigger] msgs[j]).conversation_id),
            parts.contains_key(current_conversation_id),
            ts_in_range(conversation_timestamp),
            ts_in_range(last_timestamp),
            conversation_timestamp <= last_timestamp,
            i < msgs.len() ==> last_timestamp <= msgs[i as int].timestamp,
            i == 0 ==> current_conversation_id == msgs[0].conversation_id
                && conversation_timestamp == msgs[0].timestamp && last_timestamp == msgs[0].timestamp
                && current_conversation_strs@.len() == 0 && all_message_strs@.len() == 0,
            full_segs == all_message_strs@.map_values(|s: String| s@) + spec_format_segments(
                parts,
                msgs.skip(i as int),
                eom@,
                current_conversation_strs@.map_values(|s: String| s@),
                current_conversation_id,
                conversation_timestamp,
                last_timestamp,
            ),
        decreases msgs.len() - i,
    {
        let m = &conversation[i];
        let ghost old_all = all_message_strs@.map_values(|s: String| s@);
        let ghost old_cur = current_conversation_strs@.map_values(|s: String| s@);
        let ghost old_id = current_conversation_id;
        let ghost old_anchor = conversation_timestamp;
        let ghost old_last = last_timestamp;
        proof {
            assert(msgs.skip(i as int)[0] == msgs[i as int]);
        }
        let boundary = m.conversation_id != current_conversation_id || is_session_boundary(
            last_timestamp,
            m.timestamp,
        );
        if boundary {
            conversation_timestamp = m.timestamp;
            let ps = match idx_to_participants.get(&current_conversation_id) {
                Some(ps) => ps,
                None => {
                    proof {
                        assert(false);
                    }
                    return String::new();
                },
            };
            let header = render_header(ps);
            let ghost old_vec = current_conversation_strs@;
            current_conversation_strs.insert(0, header);
            proof {
                assert(ps@ == parts[old_id]@);
                assert(current_conversation_strs@ =~= seq![header] + old_vec);
                let mapped = current_conversation_strs@.map_values(|s: String| s@);
                let target = seq![spec_header_line(parts[old_id]@)] + old_cur;
                assert forall|j: int| 0 <= j < mapped.len() implies mapped[j] == target[j] by {
                    if j == 0 {
                        assert(current_conversation_strs@[0] == header);
                    } else {
                        assert(current_conversation_strs@[j] == old_vec[j - 1]);
                        assert(old_cur[j - 1] == old_vec[j - 1]@);
                    }
                }
                assert(mapped =~= target);
            }
            let seg = join_strings(&current_conversation_strs, eom);
            all_message_strs.push(seg);
            current_conversation_strs.clear();
            current_conversation_id = m.conversation_id;
            proof {
                assert(current_conversation_strs@.map_values(|s: String| s@)
                    =~= Seq::<Seq<char>>::empty());
                assert(seg@ == spec_join_sep(
                    seq![spec_header_line(parts[old_id]@)] + old_cur,
                    eom@,
                ));
                assert(all_message_strs@.map_values(|s: String| s@) =~= old_all.push(seg@));
            }
        }
        let line = render_line(conversation_timestamp, m);
        current_conversation_strs.push(line);
        last_timestamp = m.timestamp;
        proof {
            assert(msgs.skip(i as int).drop_first() =~= msgs.skip(i as int + 1));
            if boundary {
                assert(current_conversation_strs@.map_values(|s: String| s@) =~= seq![
                    spec_msg_line(conversation_timestamp, msgs[i as int]),
                ]);
                assert(spec_format_segments(
                    parts,
                    msgs.skip(i as int),
                    eom@,
                    old_cur,
                    old_id,
                    old_anchor,
                    old_last,
                ) == seq![spec_join_sep(seq![spec_header_line(parts[old_id]@)] + old_cur, eom@)]
                    + spec_format_segments(
                    parts,
                    msgs.skip(i as int + 1),
                    eom@,
                    current_conversation_strs@.map_values(|s: String| s@),
                    current_conversation_id,
                    conversation_timestamp,
                    last_timestamp,
                ));
                assert(old_all + (seq![spec_join_sep(
                    seq![spec_header_line(parts[old_id]@)] + old_cur,
                    eom@,
                )] + spec_format_segments(
                    parts,
                    msgs.skip(i as int + 1),
                    eom@,
                    current_conversation_strs@.map_values(|s: String| s@),
                    current_conversation_id,
                    conversation_timestamp,
                    last_timestamp,
                )) =~= all_message_strs@.map_values(|s: String| s@) + spec_format_segments(
                    parts,
                    msgs.skip(i as int + 1),
                    eom@,
                    current_conversation_strs@.map_values(|s: String| s@),
                    current_conversation_id,
                    conversation_timestamp,
                    last_timestamp,
                ));
            } else {
                assert(current_conversation_strs@.map_values(|s: String| s@) =~= old_cur.push(
                    spec_msg_line(conversation_timestamp, msgs[i as int]),
                ));
                assert(spec_format_segments(
                    parts,
                    msgs.skip(i as int),
                    eom@,
                    old_cur,
                    old_id,
                    old_anchor,
                    old_last,
                ) == spec_format_segments(
                    parts,
                    msgs.skip(i as int + 1),
                    eom@,
                    current_conversation_strs@.map_values(|s: String| s@),
                    current_conversation_id,
                    conversation_timestamp,
                    last_timestamp,
                ));
            }
        }
        i = i + 1;
    }
    // The input is exhausted: emit the segment still open.
    let ghost closed = all_message_strs@.map_values(|s: String| s@);
    let ghost open_cur = current_conversation_strs@.map_values(|s: String| s@);
    let ps = match idx_to_participants.get(&current_conversation_id) {
        Some(ps) => ps,
        None => {
            proof {
                assert(false);
            }
            return String::new();
        },
    };
    let header = render_header(ps);
    let ghost old_vec = current_conversation_strs@;
    current_conversation_strs.insert(0, header);
    proof {
        assert(ps@ == parts[current_conversation_id]@);
        assert(current_conversation_strs@ =~= seq![header] + old_vec);
        let mapped = current_conversation_strs@.map_values(|s: String| s@);
        let target = seq![spec_header_line(parts[current_conversation_id]@)] + open_cur;
        assert forall|j: int| 0 <= j < mapped.len() implies mapped[j] == target[j] by {
            if j == 0 {
                assert(current_conversation_strs@[0] == header);
            } else {
                assert(current_conversation_strs@[j] == old_vec[j - 1]);
                assert(open_cur[j - 1] == old_vec[j - 1]@);
            }
        }
        assert(mapped =~= target);
    }
    let seg = join_strings(&current_conversation_strs, eom);
    all_message_strs.push(seg);
    proof {
        assert(msgs.skip(msgs.len() as int) =~= Seq::<TaggedMessage>::empty());
        assert(spec_format_segments(
            parts,
            Seq::<TaggedMessage>::empty(),
            eom@,
            open_cur,
            current_conversation_id,
            conversation_timestamp,
            last_timestamp,
        ) == seq![
            spec_join_sep(
                seq![spec_header_line(parts[current_conversation_id]@)] + open_cur,
                eom@,
            ),
        ]);
        assert(seg@ == spec_join_sep(
            seq![spec_header_line(parts[current_conversation_id]@)] + open_cur,
            eom@,
        ));
        assert(closed + seq![seg@] =~= all_message_strs@.map_values(|s: String| s@));
        assert(full_segs =~= all_message_strs@.map_values(|s: String| s@));
    }
    let out = join_strings(&all_message_strs, eoc);
    out
}

/// The rendered line of each message, in input order: a message's line is
/// anchored at its own timestamp when it opens a segment, else at the
/// current segment's anchor.
pub open spec fn spec_message_lines(
    msgs: Seq<TaggedMessage>,
    cur_id: usize,
    anchor: i64,
    last: i64,
) -> Seq<Seq<char>>
    decreases msgs.len(),
{
    if msgs.len() == 0 {
        Seq::empty()
    } else {
        let m = msgs[0];
        if m.conversation_id != cur_id || spec_session_boundary(last, m.timestamp) {
            seq![spec_msg_line(m.timestamp, m)] + spec_message_lines(
                msgs.drop_first(),
                m.conversation_id,
                m.timestamp,
                m.timestamp,
            )
        } else {
            seq![spec_msg_line(anchor, m)] + spec_message_lines(
                msgs.drop_first(),
                cur_id,
                anchor,
                m.timestamp,
            )
        }
    }
}

/// The segments of the messages as line lists: each segment is its header
/// line followed by its message lines. The walk and the segment boundaries
/// are those of `spec_format_segments`, before any joining with delimiters.
pub open spec fn spec_segment_line_lists(
    parts: Map<usize, Vec<Participant>>,
    msgs: Seq<TaggedMessage>,
    cur: Seq<Seq<char>>,
    cur_id: usize,
    anchor: i64,
    last: i64,
) -> Seq<Seq<Seq<char>>>
    decreases msgs.len(),
{
    if msgs.len() == 0 {
        seq![seq![spec_header_line(parts[cur_id]@)] + cur]
    } else {
        let m = msgs[0];
        if m.conversation_id != cur_id || spec_session_boundary(last, m.timestamp) {
            seq![seq![spec_header_line(parts[cur_id]@)] + cur] + spec_segment_line_lists(
                parts,
                msgs.drop_first(),
                seq![spec_msg_line(m.timestamp, m)],
                m.conversation_id,
                m.timestamp,
                m.timestamp,
            )
        } else {
            spec_segment_line_lists(
                parts,
                msgs.drop_first(),
                cur.push(spec_msg_line(anchor, m)),
                cur_id,
                anchor,
                m.timestamp,
            )
        }
    }
}

/// The lists laid end to end.
pub open spec fn spec_concat(xs: Seq<Seq<Seq<char>>>) -> Seq<Seq<char>>
    decreases xs.len(),
{
    if xs.len() == 0 {
        Seq::empty()
    } else {
        xs[0] + spec_concat(xs.drop_first())
    }
}

/// Each segment text is its line list joined by the end-of-message
/// delimiter.
proof fn lemma_segments_are_joined_line_lists(
    parts: Map<usize, Vec<Participant>>,
    msgs: Seq<TaggedMessage>,
    eom: Seq<char>,
    cur: Seq<Seq<char>>,
    cur_id: usize,
    anchor: i64,
    last: i64,
)
    ensures
        spec_format_segments(parts, msgs, eom, cur, cur_id, anchor, last)
            == spec_segment_line_lists(parts, msgs, cur, cur_id, anchor, last).map_values(
            |ls: Seq<Seq<char>>| spec_join_sep(ls, eom),
        ),
    decreases msgs.len(),
{
    if msgs.len() == 0 {
        assert(spec_format_segments(parts, msgs, eom, cur, cur_id, anchor, last)
            =~= spec_segment_line_lists(parts, msgs, cur, cur_id, anchor, last).map_values(
            |ls: Seq<Seq<char>>| spec_join_sep(ls, eom),
        ));
    } else {
        let m = msgs[0];
        if m.conversation_id != cur_id || spec_session_boundary(last, m.timestamp) {
            lemma_segments_are_joined_line_lists(
                parts,
                msgs.drop_first(),
                eom,
                seq![spec_msg_line(m.timestamp, m)],
                m.conversation_id,
                m.timestamp,
                m.timestamp,
            );
            assert(spec_format_segments(parts, msgs, eom, cur, cur_id, anchor, last)
                =~= spec_segment_line_lists(parts, msgs, cur, cur_id, anchor, last).map_values(
                |ls: Seq<Seq<char>>| spec_join_sep(ls, eom),
            ));
        } else {
            lemma_segments_are_joined_line_lists(
                parts,
                msgs.drop_first(),
                eom,
                cur.push(spec_msg_line(anchor, m)),
                cur_id,
                anchor,
                m.timestamp,
            );
        }
    }
}

/// Stripped of their headers, the segments' line lists laid end to end hold
/// the line of every walked message, in order, after the lines already open.
proof fn lemma_line_lists_hold_every_message(
    parts: Map<usize, Vec<Participant>>,
    msgs: Seq<TaggedMessage>,
    cur: Seq<Seq<char>>,
    cur_id: usize,
    anchor: i64,
    last: i64,
)
    ensures
        spec_concat(
            spec_segment_line_lists(parts, msgs, cur, cur_id, anchor, last).map_values(
                |ls: Seq<Seq<char>>| ls.drop_first(),
            ),
        ) == cur + spec_message_lines(msgs, cur_id, anchor, last),
    decreases msgs.len(),
{
    let lists = spec_segment_line_lists(parts, msgs, cur, cur_id, anchor, last);
    let dropped = lists.map_values(|ls: Seq<Seq<char>>| ls.drop_first());
    if msgs.len() == 0 {
        assert(dropped =~= seq![(seq![spec_header_line(parts[cur_id]@)] + cur).drop_first()]);
        assert((seq![spec_header_line(parts[cur_id]@)] + cur).drop_first() =~= cur);
        assert(spec_concat(dropped.drop_first()) == Seq::<Seq<char>>::empty());
        assert(spec_concat(dropped) =~= cur + spec_message_lines(msgs, cur_id, anchor, last));
    } else {
        let m = msgs[0];
        if m.conversation_id != cur_id || spec_session_boundary(last, m.timestamp) {
            let rest_lists = spec_segment_line_lists(
                parts,
                msgs.drop_first(),
                seq![spec_msg_line(m.timestamp, m)],
                m.conversation_id,
                m.timestamp,
                m.timestamp,
            );
            lemma_line_lists_hold_every_message(
                parts,
                msgs.drop_first(),
                seq![spec_msg_line(m.timestamp, m)],
                m.conversation_id,
                m.timestamp,
                m.timestamp,
            );
            assert(dropped =~= seq![(seq![spec_header_line(parts[cur_id]@)] + cur).drop_first()]
                + rest_lists.map_values(|ls: Seq<Seq<char>>| ls.drop_first()));
            assert(dropped[0] == (seq![spec_header_line(parts[cur_id]@)] + cur).drop_first());
            assert(dropped.drop_first() =~= rest_lists.map_values(
                |ls: Seq<Seq<char>>| ls.drop_first(),
            ));
            assert((seq![spec_header_line(parts[cur_id]@)] + cur).drop_first() =~= cur);
            assert(spec_concat(dropped) =~= cur + spec_message_lines(msgs, cur_id, anchor, last));
        } else {
            lemma_line_lists_hold_every_message(
                parts,
                msgs.drop_first(),
                cur.push(spec_msg_line(anchor, m)),
                cur_id,
                anchor,
                m.timestamp,
            );
            assert(spec_concat(dropped) =~= cur + spec_message_lines(msgs, cur_id, anchor, last));
        }
    }
}

proof fn lemma_message_lines_len(msgs: Seq<TaggedMessage>, cur_id: usize, anchor: i64, last: i64)
    ensures
        spec_message_lines(msgs, cur_id, anchor, last).len() == msgs.len(),
    decreases msgs.len(),
{
    if msgs.len() > 0 {
        let m = msgs[0];
        if m.conversation_id != cur_id || spec_session_boundary(last, m.timestamp) {
            lemma_message_lines_len(msgs.drop_first(), m.conversation_id, m.timestamp, m.timestamp);
        } else {
            lemma_message_lines_len(msgs.drop_first(), cur_id, anchor, m.timestamp);
        }
    }
}

/// Every message is rendered exactly once and in input order. The output is
/// the segment texts joined by the end-of-conversation delimiter, each
/// segment text its header and message lines joined by the end-of-message
/// delimiter — the segment still open at the end of the input included —
/// and, stripped of the headers, the segments' lines laid end to end are
/// exactly one rendered line per input message, in order.
pub proof fn lemma_format_renders_every_message(
    parts: Map<usize, Vec<Participant>>,
    msgs: Seq<TaggedMessage>,
    eom: Seq<char>,
    eoc: Seq<char>,
)
    requires
        msgs.len() > 0,
    ensures
        ({
            let lists = spec_segment_line_lists(
                parts,
                msgs,
                Seq::empty(),
                msgs[0].conversation_id,
                msgs[0].timestamp,
                msgs[0].timestamp,
            );
            let lines = spec_message_lines(
                msgs,
                msgs[0].conversation_id,
                msgs[0].timestamp,
                msgs[0].timestamp,
            );
            &&& spec_format(parts, msgs, eom, eoc) == spec_join_sep(
                lists.map_values(|ls: Seq<Seq<char>>| spec_join_sep(ls, eom)),
                eoc,
            )
            &&& spec_concat(lists.map_values(|ls: Seq<Seq<char>>| ls.drop_first())) == lines
            &&& lines.len() == msgs.len()
        }),
{
    let id0 = msgs[0].conversation_id;
    let t0 = msgs[0].timestamp;
    lemma_segments_are_joined_line_lists(parts, msgs, eom, Seq::empty(), id0, t0, t0);
    lemma_line_lists_hold_every_message(parts, msgs, Seq::empty(), id0, t0, t0);
    assert(Seq::<Seq<char>>::empty() + spec_message_lines(msgs, id0, t0, t0)
        =~= spec_message_lines(msgs, id0, t0, t0));
    lemma_message_lines_len(msgs, id0, t0, t0);
}

/// Rendering is a function of its inputs alone: formatting the same pairs
/// again, with the same participant lists and delimiters, yields the same
/// text. With `lemma_format_renders_every_message` this gives the fixed
/// point on the formatter's own output: every input pair is rendered, so
/// the pairs an output carries are the pairs it was made from, and
/// formatting them again yields that output.
pub proof fn lemma_format_deterministic(
    parts1: Map<usize, Vec<Participant>>,
    msgs1: Seq<TaggedMessage>,
    eom1: Seq<char>,
    eoc1: Seq<char>,
    parts2: Map<usize, Vec<Participant>>,
    msgs2: Seq<TaggedMessage>,
    eom2: Seq<char>,
    eoc2: Seq<char>,
)
    requires
        parts1 == parts2,
        msgs1 == msgs2,
        eom1 == eom2,
        eoc1 == eoc2,
    ensures
        spec_format(parts1, msgs1, eom1, eoc1) == spec_format(parts2, msgs2, eom2, eoc2),
{
}

} // verus!
