use vstd::prelude::*;

use crate::text::chars_of;

verus! {

/// Where reading a test file stands: the frames done, the lines of the
/// current frame, the bits of the current line, and whether that line is
/// still empty.
pub struct FramesState {
    pub frames: Seq<Seq<Seq<bool>>>,
    pub lists: Seq<Seq<bool>>,
    pub curr: Seq<bool>,
    pub empty_line: bool,
}

/// Ends the current line, unless it is empty.
pub open spec fn flush_line(st: FramesState) -> FramesState {
    if !st.empty_line {
        FramesState { frames: st.frames, lists: st.lists.push(st.curr), curr: Seq::empty(), empty_line: true }
    } else {
        st
    }
}

/// Reads one character: a bit, the end of a line, or `;` that ends a frame;
/// any other character is an error.
pub open spec fn frames_step(st: FramesState, c: char) -> Option<FramesState> {
    if c == '\n' {
        Some(flush_line(st))
    } else if c == '0' || c == '1' {
        Some(FramesState { frames: st.frames, lists: st.lists, curr: st.curr.push(c == '1'), empty_line: false })
    } else if c == ';' {
        let f = flush_line(st);
        Some(FramesState { frames: f.frames.push(f.lists), lists: Seq::empty(), curr: f.curr, empty_line: f.empty_line })
    } else {
        None
    }
}

/// Reads the characters of a text in order.
pub open spec fn frames_fold(s: Seq<char>) -> Option<FramesState>
    decreases s.len(),
{
    if s.len() == 0 {
        Some(FramesState { frames: Seq::empty(), lists: Seq::empty(), curr: Seq::empty(), empty_line: true })
    } else {
        match frames_fold(s.drop_last()) {
            None => None,
            Some(st) => frames_step(st, s.last()),
        }
    }
}

/// The frames of a test file, as values.
pub open spec fn frames_view(v: Seq<Vec<Vec<bool>>>) -> Seq<Seq<Seq<bool>>> {
    v.map_values(|f: Vec<Vec<bool>>| f@.map_values(|l: Vec<bool>| l@))
}

/// Reads the frames of a test file: each frame ends with `;` and holds the
/// non-empty lines of bits before it; what follows the last `;` is dropped.
pub fn read_bits_sequence(src: &str) -> (r: Result<Vec<Vec<Vec<bool>>>, String>)
    ensures
        match frames_fold(src@) {
            None => r matches Err(e) && e@ == "Unexpected character in input."@,
            Some(st) => r matches Ok(v) && frames_view(v@) == st.frames,
        },
{
    proof {
        reveal_strlit("Unexpected character in input.");
    }
    let cs = chars_of(src);
    let mut frames: Vec<Vec<Vec<bool>>> = Vec::new();
    let mut lists: Vec<Vec<bool>> = Vec::new();
    let mut curr: Vec<bool> = Vec::new();
    let mut empty_line = true;
    let mut i: usize = 0;
    assert(frames_view(frames@) =~= Seq::<Seq<Seq<bool>>>::empty());
    assert(lists@.map_values(|l: Vec<bool>| l@) =~= Seq::<Seq<bool>>::empty());
    assert(curr@ =~= Seq::<bool>::empty());
    assert(src@.take(0) =~= Seq::<char>::empty());
    while i < cs.len()
        invariant
            i <= cs@.len(),
            cs@ == src@,
            frames_fold(src@.take(i as int)) == Some(
                FramesState {
                    frames: frames_view(frames@),
                    lists: lists@.map_values(|l: Vec<bool>| l@),
                    curr: curr@,
                    empty_line,
                },
            ),
        decreases cs.len() - i,
    {
        let c = cs[i];
        assert(src@.take(i + 1).drop_last() =~= src@.take(i as int));
        if c == '\n' || c == ';' {
            if !empty_line {
                let ghost before = lists@.map_values(|l: Vec<bool>| l@);
                let mut line: Vec<bool> = Vec::new();
                std::mem::swap(&mut line, &mut curr);
                lists.push(line);
                assert(lists@.map_values(|l: Vec<bool>| l@) =~= before.push(lists@[lists@.len() - 1]@));
                empty_line = true;
            }
            if c == ';' {
                let ghost before = frames_view(frames@);
                let mut frame: Vec<Vec<bool>> = Vec::new();
                std::mem::swap(&mut frame, &mut lists);
                frames.push(frame);
                assert(frames_view(frames@) =~= before.push(frames@[frames@.len() - 1]@.map_values(|l: Vec<bool>| l@)));
                assert(lists@.map_values(|l: Vec<bool>| l@) =~= Seq::<Seq<bool>>::empty());
            }
        } else if c == '0' || c == '1' {
            curr.push(c == '1');
            empty_line = false;
        } else {
            proof {
                lemma_fold_stays_none(src@, i + 1);
            }
            return Err(String::from_str("Unexpected character in input."));
        }
        i = i + 1;
    }
    assert(src@.take(cs@.len() as int) =~= src@);
    Ok(frames)
}

proof fn lemma_fold_stays_none(s: Seq<char>, k: int)
    requires
        0 <= k <= s.len(),
        frames_fold(s.take(k)) is None,
    ensures
        frames_fold(s) is None,
    decreases s.len() - k,
{
    if k < s.len() {
        assert(s.take(k + 1).drop_last() =~= s.take(k));
        lemma_fold_stays_none(s, k + 1);
    } else {
        assert(s.take(k) =~= s);
    }
}

} // verus!
