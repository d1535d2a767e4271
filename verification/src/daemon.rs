//! The daemon's decisions: what a toggle request does, and how the socket's
//! newline-separated commands are read.
use vstd::prelude::*;
use crate::text::{chars_of, lemma_split_nonempty, split_on};

verus! {

/// What a toggle request does to the picker window.
#[derive(Debug, Clone, Copy, PartialEq, Eq, Structural)]
pub enum ToggleAction {
    /// The window is shown and not closing: begin the close animation.
    BeginHide,
    /// Nothing is set up yet: create the GPU state and the window, then show.
    InitAndShow,
    /// The window was closed: create it again on the existing GPU state, then show.
    OpenAndShow,
    /// The close animation is running: let it finish.
    Ignore,
}

/// The toggle decision from whether the daemon has its state, whether the window
/// exists, and whether the picker is animating in (or shown).
pub open spec fn toggle_decision(has_state: bool, has_window: bool, anim_showing: bool) -> ToggleAction {
    if has_state && has_window && anim_showing {
        ToggleAction::BeginHide
    } else if !has_state {
        ToggleAction::InitAndShow
    } else if !has_window {
        ToggleAction::OpenAndShow
    } else {
        ToggleAction::Ignore
    }
}

/// Decides what a toggle request does.
pub fn toggle_action(has_state: bool, has_window: bool, anim_showing: bool) -> (r: ToggleAction)
    ensures
        r == toggle_decision(has_state, has_window, anim_showing),
{
    let showing = has_state && has_window && anim_showing;
    let hidden = !has_state || !has_window;
    if showing {
        ToggleAction::BeginHide
    } else if hidden {
        if !has_state {
            ToggleAction::InitAndShow
        } else {
            ToggleAction::OpenAndShow
        }
    } else {
        ToggleAction::Ignore
    }
}

/// Unicode White_Space, the characters `char::is_whitespace` accepts.
pub open spec fn is_white_space(c: char) -> bool {
    let u = c as int;
    (0x9 <= u <= 0xD) || u == 0x20 || u == 0x85 || u == 0xA0 || u == 0x1680 || (0x2000 <= u <= 0x200A)
        || u == 0x2028 || u == 0x2029 || u == 0x202F || u == 0x205F || u == 0x3000
}

fn white_space(c: char) -> (r: bool)
    ensures
        r == is_white_space(c),
{
    let u = c as u32;
    (0x9 <= u && u <= 0xD) || u == 0x20 || u == 0x85 || u == 0xA0 || u == 0x1680 || (0x2000 <= u && u <= 0x200A)
        || u == 0x2028 || u == 0x2029 || u == 0x202F || u == 0x205F || u == 0x3000
}

/// `s` without leading white space.
pub open spec fn trim_start(s: Seq<char>) -> Seq<char>
    decreases s.len(),
{
    if s.len() > 0 && is_white_space(s[0]) {
        trim_start(s.drop_first())
    } else {
        s
    }
}

/// `s` without trailing white space.
pub open spec fn trim_end(s: Seq<char>) -> Seq<char>
    decreases s.len(),
{
    if s.len() > 0 && is_white_space(s.last()) {
        trim_end(s.drop_last())
    } else {
        s
    }
}

/// `s` without leading or trailing white space.
pub open spec fn trimmed(s: Seq<char>) -> Seq<char> {
    trim_end(trim_start(s))
}

/// The pieces of `s` between newlines, in order (an empty last piece when `s` ends
/// with a newline).
pub open spec fn newline_pieces(s: Seq<char>) -> Seq<Seq<char>> {
    split_on(s, '\n')
}

/// The command word a client sends to show or hide the picker.
pub open spec fn toggle_word() -> Seq<char> {
    seq!['t', 'o', 'g', 'g', 'l', 'e']
}

/// A line that, trimmed, is the toggle command.
pub open spec fn is_toggle_line(line: Seq<char>) -> bool {
    trimmed(line) == toggle_word()
}

/// How many lines of a message are toggle commands.
pub open spec fn toggle_count(message: Seq<char>) -> nat {
    newline_pieces(message).filter(|l: Seq<char>| is_toggle_line(l)).len()
}

fn trim_chars(v: &Vec<char>) -> (r: Vec<char>)
    ensures
        r@ == trimmed(v@),
{
    let mut start: usize = 0;
    assert(v@.skip(0) =~= v@);
    while start < v.len() && white_space(v[start])
        invariant
            start <= v@.len(),
            trim_start(v@) == trim_start(v@.skip(start as int)),
        decreases v@.len() - start,
    {
        assert(v@.skip(start as int).drop_first() =~= v@.skip(start + 1));
        start += 1;
    }
    let ghost front = v@.skip(start as int);
    assert(trim_start(v@) == front) by {
        if front.len() > 0 {
            assert(front[0] == v@[start as int]);
        }
    }
    let mut end: usize = v.len();
    while end > start && white_space(v[end - 1])
        invariant
            start <= end <= v@.len(),
            trim_end(front) == trim_end(v@.subrange(start as int, end as int)),
        decreases end - start,
    {
        assert(v@.subrange(start as int, end as int).drop_last() =~= v@.subrange(start as int, end - 1));
        end -= 1;
    }
    let mut r: Vec<char> = Vec::new();
    let mut i: usize = start;
    while i < end
        invariant
            start <= i <= end <= v@.len(),
            r@ == v@.subrange(start as int, i as int),
        decreases end - i,
    {
        r.push(v[i]);
        assert(v@.subrange(start as int, i + 1) =~= v@.subrange(start as int, i as int).push(v@[i as int]));
        i += 1;
    }
    assert(trim_end(v@.subrange(start as int, end as int)) == v@.subrange(start as int, end as int)) by {
        let m = v@.subrange(start as int, end as int);
        if m.len() > 0 {
            assert(m.last() == v@[end - 1]);
        }
    }
    r
}

fn is_toggle_word(v: &Vec<char>) -> (r: bool)
    ensures
        r == (v@ == toggle_word()),
{
    let r = v.len() == 6 && v[0] == 't' && v[1] == 'o' && v[2] == 'g' && v[3] == 'g' && v[4] == 'l' && v[5] == 'e';
    proof {
        if r {
            assert(v@ =~= toggle_word());
        }
    }
    r
}

/// Counts the lines of a socket message that, trimmed, are `toggle`; other lines
/// are ignored.
pub fn toggle_requests(message: &str) -> (r: usize)
    ensures
        r == toggle_count(message@),
{
    let chars = chars_of(message);
    let ghost pred = |l: Seq<char>| is_toggle_line(l);
    let mut done: usize = 0;
    let mut line: Vec<char> = Vec::new();
    let mut i: usize = 0;
    assert(chars@.take(0) =~= Seq::<char>::empty());
    assert(newline_pieces(chars@.take(0)).drop_last() =~= Seq::<Seq<char>>::empty());
    assert(Seq::<Seq<char>>::empty().filter(pred).len() == 0) by {
        reveal(Seq::filter);
    }
    while i < chars.len()
        invariant
            chars@ == message@,
            i <= chars@.len(),
            pred == (|l: Seq<char>| is_toggle_line(l)),
            newline_pieces(chars@.take(i as int)).last() == line@,
            done == newline_pieces(chars@.take(i as int)).drop_last().filter(pred).len(),
            done + line@.len() <= i,
        decreases chars@.len() - i,
    {
        let ghost prefix = chars@.take(i as int);
        let ghost next = chars@.take(i + 1);
        proof {
            lemma_split_nonempty(prefix, '\n');
            assert(next.drop_last() =~= prefix);
            assert(next.last() == chars@[i as int]);
        }
        if chars[i] == '\n' {
            let t = trim_chars(&line);
            let hit = is_toggle_word(&t);
            proof {
                let pieces = newline_pieces(prefix);
                assert(newline_pieces(next) == pieces.push(Seq::empty()));
                assert(newline_pieces(next).drop_last() =~= pieces);
                assert(pieces =~= pieces.drop_last().push(line@));
                pieces.drop_last().lemma_filter_push(line@, pred);
                pieces.drop_last().lemma_filter_len(pred);
            }
            if hit {
                done += 1;
            }
            line = Vec::new();
        } else {
            proof {
                let pieces = newline_pieces(prefix);
                assert(newline_pieces(next).drop_last() =~= pieces.drop_last());
            }
            line.push(chars[i]);
        }
        i += 1;
    }
    proof {
        assert(chars@.take(chars@.len() as int) =~= chars@);
        let pieces = newline_pieces(chars@);
        lemma_split_nonempty(chars@, '\n');
        assert(pieces =~= pieces.drop_last().push(line@));
        pieces.drop_last().lemma_filter_push(line@, pred);
    }
    let t = trim_chars(&line);
    if is_toggle_word(&t) {
        assert(line@.len() > 0) by {
            if line@.len() == 0 {
                assert(trimmed(line@) =~= line@);
            }
        }
        done + 1
    } else {
        done
    }
}

} // verus!
