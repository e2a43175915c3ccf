//! Classification of archive member names.
//!
//! The archive lists its members under `/`-separated names. The library
//! reads those names as plain text: a member holds chat records when its
//! file name (the last non-empty segment) carries the `json` extension and
//! the name contains an underscore, and a member's conversation key is the
//! directory component just above the file name when the name has exactly
//! four components, empty segments and `.` markers not counted.

use vstd::prelude::*;
use vstd::string::{StrSliceExecFns, StringExecFns};
use crate::strutil::push_char;

verus! {

/// The `/`-separated segments of a name, empty segments included; a name
/// with no separator is one segment, so the result is never empty.
pub open spec fn spec_split_slash(s: Seq<char>) -> Seq<Seq<char>>
    decreases s.len(),
{
    if s.len() == 0 {
        seq![Seq::empty()]
    } else {
        let rest = spec_split_slash(s.drop_last());
        if s.last() == '/' {
            rest.push(Seq::empty())
        } else {
            rest.update(rest.len() - 1, rest.last().push(s.last()))
        }
    }
}

/// The non-empty segments of a segment list, in order.
pub open spec fn spec_nonempty(segs: Seq<Seq<char>>) -> Seq<Seq<char>>
    decreases segs.len(),
{
    if segs.len() == 0 {
        Seq::empty()
    } else {
        let rest = spec_nonempty(segs.drop_last());
        if segs.last().len() > 0 {
            rest.push(segs.last())
        } else {
            rest
        }
    }
}

/// The segments of a segment list that name a real path step: neither empty
/// nor the current-directory marker `.`.
pub open spec fn spec_path_components(segs: Seq<Seq<char>>) -> Seq<Seq<char>>
    decreases segs.len(),
{
    if segs.len() == 0 {
        Seq::empty()
    } else {
        let rest = spec_path_components(segs.drop_last());
        if segs.last().len() > 0 && segs.last() != seq!['.'] {
            rest.push(segs.last())
        } else {
            rest
        }
    }
}

/// The `/`-separated components of a name, empty segments and `.` markers
/// dropped.
pub open spec fn spec_components(s: Seq<char>) -> Seq<Seq<char>> {
    spec_path_components(spec_split_slash(s))
}

/// The index of the last `.` in a file name, or -1 when there is none.
pub open spec fn spec_last_dot(f: Seq<char>) -> int
    decreases f.len(),
{
    if f.len() == 0 {
        -1
    } else if f.last() == '.' {
        f.len() - 1
    } else {
        spec_last_dot(f.drop_last())
    }
}

/// Whether the file name of a member name carries the `json` extension. The
/// file name is the last non-empty `/`-separated segment, so a trailing
/// slash is ignored; its last `.` must be preceded by at least one character
/// and followed by exactly `json`.
pub open spec fn spec_has_json_extension(s: Seq<char>) -> bool {
    let segs = spec_nonempty(spec_split_slash(s));
    &&& segs.len() > 0
    &&& {
        let f = segs.last();
        let d = spec_last_dot(f);
        d >= 1 && f.subrange(d + 1, f.len() as int) == seq!['j', 's', 'o', 'n']
    }
}

/// Whether the character occurs in the text.
pub open spec fn spec_contains_char(s: Seq<char>, c: char) -> bool {
    exists|i: int| 0 <= i < s.len() && s[i] == c
}

/// Splits a name at every `/`, keeping empty segments.
fn split_slash(name: &str) -> (r: Vec<String>)
    ensures
        r@.map_values(|t: String| t@) == spec_split_slash(name@),
        r@.len() >= 1,
{
    let n = name.unicode_len();
    let mut done: Vec<String> = Vec::new();
    let mut cur = String::new();
    let mut i: usize = 0;
    proof {
        assert(name@.take(0) =~= Seq::<char>::empty());
        assert(done@.map_values(|t: String| t@).push(cur@) =~= spec_split_slash(name@.take(0)));
    }
    while i < n
        invariant
            n == name@.len(),
            0 <= i <= n,
            done@.map_values(|t: String| t@).push(cur@) == spec_split_slash(name@.take(i as int)),
        decreases n - i,
    {
        let c = name.get_char(i);
        let ghost prev = done@.map_values(|t: String| t@).push(cur@);
        proof {
            assert(name@.take(i as int + 1).drop_last() =~= name@.take(i as int));
            assert(name@.take(i as int + 1).last() == name@[i as int]);
        }
        if c == '/' {
            done.push(cur);
            cur = String::new();
            proof {
                assert(done@.map_values(|t: String| t@).push(cur@) =~= prev.push(Seq::empty()));
            }
        } else {
            push_char(&mut cur, c);
            proof {
                assert(done@.map_values(|t: String| t@).push(cur@) =~= prev.update(
                    prev.len() - 1,
                    prev.last().push(name@[i as int]),
                ));
            }
        }
        i = i + 1;
    }
    proof {
        assert(name@.take(n as int) =~= name@);
    }
    let mut done = done;
    done.push(cur);
    done
}

/// The non-empty segments of a name.
fn nonempty_segments(name: &str) -> (r: Vec<String>)
    ensures
        r@.map_values(|t: String| t@) == spec_nonempty(spec_split_slash(name@)),
{
    let segs = split_slash(name);
    let ghost views = segs@.map_values(|t: String| t@);
    let mut out: Vec<String> = Vec::new();
    let mut i: usize = 0;
    proof {
        assert(views.take(0) =~= Seq::<Seq<char>>::empty());
        assert(out@.map_values(|t: String| t@) =~= spec_nonempty(views.take(0)));
    }
    while i < segs.len()
        invariant
            views == segs@.map_values(|t: String| t@),
            0 <= i <= segs@.len(),
            out@.map_values(|t: String| t@) == spec_nonempty(views.take(i as int)),
        decreases segs@.len() - i,
    {
        let ghost prev = out@.map_values(|t: String| t@);
        proof {
            assert(views.take(i as int + 1).drop_last() =~= views.take(i as int));
            assert(views.take(i as int + 1).last() == views[i as int]);
            assert(views[i as int] == segs@[i as int]@);
        }
        if !segs[i].as_str().is_empty() {
            out.push(segs[i].clone());
            proof {
                assert(out@.map_values(|t: String| t@) =~= prev.push(views[i as int]));
            }
        }
        i = i + 1;
    }
    proof {
        assert(views.take(views.len() as int) =~= views);
    }
    out
}

/// Whether a segment is the current-directory marker `.`.
fn is_dot_segment(seg: &str) -> (r: bool)
    ensures
        r == (seg@ == seq!['.']),
{
    let r = seg.unicode_len() == 1 && seg.get_char(0) == '.';
    proof {
        if r {
            assert(seg@ =~= seq!['.']);
        } else {
            assert(seg@ != seq!['.']);
        }
    }
    r
}

/// The `/`-separated components of a name, empty segments and `.` markers
/// dropped.
fn components(name: &str) -> (r: Vec<String>)
    ensures
        r@.map_values(|t: String| t@) == spec_components(name@),
{
    let segs = split_slash(name);
    let ghost views = segs@.map_values(|t: String| t@);
    let mut out: Vec<String> = Vec::new();
    let mut i: usize = 0;
    proof {
        assert(views.take(0) =~= Seq::<Seq<char>>::empty());
        assert(out@.map_values(|t: String| t@) =~= spec_path_components(views.take(0)));
    }
    while i < segs.len()
        invariant
            views == segs@.map_values(|t: String| t@),
            0 <= i <= segs@.len(),
            out@.map_values(|t: String| t@) == spec_path_components(views.take(i as int)),
        decreases segs@.len() - i,
    {
        let ghost prev = out@.map_values(|t: String| t@);
        proof {
            assert(views.take(i as int + 1).drop_last() =~= views.take(i as int));
            assert(views.take(i as int + 1).last() == views[i as int]);
            assert(views[i as int] == segs@[i as int]@);
        }
        if !segs[i].as_str().is_empty() && !is_dot_segment(segs[i].as_str()) {
            out.push(segs[i].clone());
            proof {
                assert(out@.map_values(|t: String| t@) =~= prev.push(views[i as int]));
            }
        }
        i = i + 1;
    }
    proof {
        assert(views.take(views.len() as int) =~= views);
    }
    out
}

/// The index of the last `.` in a file name, when there is one.
fn last_dot(f: &str) -> (r: Option<usize>)
    ensures
        match r {
            Some(d) => spec_last_dot(f@) == d as int && d < f@.len(),
            None => spec_last_dot(f@) == -1,
        },
{
    let n = f.unicode_len();
    let mut j: usize = n;
    proof {
        assert(f@.take(n as int) =~= f@);
    }
    while j > 0
        invariant
            n == f@.len(),
            0 <= j <= n,
            spec_last_dot(f@) == spec_last_dot(f@.take(j as int)),
        decreases j,
    {
        let c = f.get_char(j - 1);
        proof {
            assert(f@.take(j as int).last() == f@[j as int - 1]);
            assert(f@.take(j as int).drop_last() =~= f@.take(j as int - 1));
        }
        if c == '.' {
            return Some(j - 1);
        }
        j = j - 1;
    }
    proof {
        assert(f@.take(0) =~= Seq::<char>::empty());
    }
    None
}

/// Whether the character occurs in the name.
fn contains_char(name: &str, c: char) -> (r: bool)
    ensures
        r == spec_contains_char(name@, c),
{
    let n = name.unicode_len();
    let mut i: usize = 0;
    while i < n
        invariant
            n == name@.len(),
            0 <= i <= n,
            forall|j: int| 0 <= j < i ==> name@[j] != c,
        decreases n - i,
    {
        if name.get_char(i) == c {
            return true;
        }
        i = i + 1;
    }
    false
}

/// Whether a member name names a chat record file: its file name carries the
/// `json` extension and the name contains an underscore.
pub fn is_chat_member_name(name: &str) -> (r: bool)
    ensures
        r == (spec_has_json_extension(name@) && spec_contains_char(name@, '_')),
{
    let segs = nonempty_segments(name);
    let ghost views = segs@.map_values(|t: String| t@);
    if segs.len() == 0 {
        return false;
    }
    let f = &segs[segs.len() - 1];
    proof {
        assert(views[views.len() - 1] == f@);
        assert(views.last() == spec_nonempty(spec_split_slash(name@)).last());
    }
    let has_ext: bool = match last_dot(f.as_str()) {
        None => false,
        Some(d) => {
            let flen = f.as_str().unicode_len();
            if d >= 1 && flen - d == 5 {
                let c1 = f.as_str().get_char(d + 1);
                let c2 = f.as_str().get_char(d + 2);
                let c3 = f.as_str().get_char(d + 3);
                let c4 = f.as_str().get_char(d + 4);
                let ok = c1 == 'j' && c2 == 's' && c3 == 'o' && c4 == 'n';
                proof {
                    let ext = f@.subrange(d as int + 1, f@.len() as int);
                    assert(ext.len() == 4);
                    assert(ext[0] == f@[d as int + 1] && ext[1] == f@[d as int + 2] && ext[2]
                        == f@[d as int + 3] && ext[3] == f@[d as int + 4]);
                    if ok {
                        assert(ext =~= seq!['j', 's', 'o', 'n']);
                    } else {
                        assert(ext != seq!['j', 's', 'o', 'n']);
                    }
                }
                ok
            } else {
                proof {
                    let ext = f@.subrange(d as int + 1, f@.len() as int);
                    if d >= 1 {
                        assert(ext.len() != 4);
                        assert(ext != seq!['j', 's', 'o', 'n']);
                    }
                }
                false
            }
        },
    };
    has_ext && contains_char(name, '_')
}

/// The conversation key of a member name: the directory component above the
/// file name, present exactly when the name has four components (empty
/// segments and `.` markers aside).
pub fn conversation_key(name: &str) -> (r: Option<String>)
    ensures
        match r {
            Some(key) => spec_components(name@).len() == 4 && key@ == spec_components(name@)[2],
            None => spec_components(name@).len() != 4,
        },
{
    let comps = components(name);
    if comps.len() == 4 {
        proof {
            assert(comps@.map_values(|t: String| t@)[2] == comps@[2]@);
        }
        Some(comps[2].clone())
    } else {
        None
    }
}

} // verus!
