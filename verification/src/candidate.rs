//! Decorating a window of lines into the buffers handed to the syntax
//! checker.  Each window yields exactly two candidates, one per variant; the
//! decoration exists only for the checker and is never part of the result.

use vstd::prelude::*;

verus! {

/// How many candidate buffers a window produces: one per variant.
pub const CANDIDATES_PER_WINDOW: usize = 2;

/// A decoration strategy for a window's lines.
#[derive(Clone, Copy, Debug, PartialEq, Eq, Structural)]
pub enum Variant {
    /// The window's lines as they stand.
    Plain,
    /// The window's lines inside a synthetic class body, so that a fragment
    /// that is only legal as a member declaration still validates.
    WrappedInClass,
}

/// One fully materialized buffer for the checker, together with the variant
/// that produced it.
#[derive(Debug)]
pub struct Candidate {
    pub variant: Variant,
    pub buffer: String,
}

/// The marker that opens a checkable buffer: `<?php`.
pub open spec fn open_tag_marker() -> Seq<char> {
    seq!['<', '?', 'p', 'h', 'p']
}

/// The open-tag line that is prepended when the window does not already start
/// with the marker.
pub open spec fn open_tag_line() -> Seq<char> {
    seq!['<', '?', 'p', 'h', 'p', '\n']
}

/// The synthetic class opener of the `WrappedInClass` variant.
pub open spec fn class_opener() -> Seq<char> {
    seq!['c', 'l', 'a', 's', 's', ' ', 'F', 'o', 'o', ' ', '{']
}

/// The synthetic class closer of the `WrappedInClass` variant.
pub open spec fn class_closer() -> Seq<char> {
    seq!['}']
}

/// Whether a line already begins with the open-tag marker.
pub open spec fn starts_with_marker(l: Seq<char>) -> bool {
    l.len() >= 5 && l.subrange(0, 5) == open_tag_marker()
}

/// The window's lines, each terminated by a newline, concatenated.
pub open spec fn terminated_lines(lines: Seq<Seq<char>>) -> Seq<char>
    decreases lines.len(),
{
    if lines.len() == 0 {
        Seq::empty()
    } else {
        lines[0] + seq!['\n'] + terminated_lines(lines.drop_first())
    }
}

pub proof fn lemma_terminated_push(lines: Seq<Seq<char>>, l: Seq<char>)
    ensures
        terminated_lines(lines.push(l)) == terminated_lines(lines) + l + seq!['\n'],
    decreases lines.len(),
{
    if lines.len() == 0 {
        assert(lines.push(l).drop_first() =~= Seq::<Seq<char>>::empty());
        assert(lines.push(l)[0] == l);
        assert(terminated_lines(lines.push(l).drop_first()) == Seq::<char>::empty());
        assert(terminated_lines(lines.push(l)) == l + seq!['\n'] + terminated_lines(
            lines.push(l).drop_first(),
        ));
        assert(terminated_lines(lines.push(l)) =~= terminated_lines(lines) + l + seq!['\n']);
    } else {
        assert(lines.push(l).drop_first() =~= lines.drop_first().push(l));
        lemma_terminated_push(lines.drop_first(), l);
        assert(lines[0] + seq!['\n'] + (terminated_lines(lines.drop_first()) + l + seq!['\n'])
            =~= (lines[0] + seq!['\n'] + terminated_lines(lines.drop_first())) + l + seq!['\n']);
    }
}

/// The exact contents of the buffer built for window `[start, end)` under the
/// given variant: the open-tag line unless the first line already carries the
/// marker, the optional class opener, every window line newline-terminated,
/// and the optional class closer.
pub open spec fn candidate_buffer(
    lines: Seq<Seq<char>>,
    start: int,
    end: int,
    variant: Variant,
) -> Seq<char> {
    let tag = if starts_with_marker(lines[start]) {
        Seq::<char>::empty()
    } else {
        open_tag_line()
    };
    let body = terminated_lines(lines.subrange(start, end));
    match variant {
        Variant::Plain => tag + body,
        Variant::WrappedInClass => tag + class_opener() + body + class_closer(),
    }
}

/// Whether `line` begins with `<?php`, decided character by character.
fn line_has_marker(line: &String) -> (b: bool)
    ensures
        b == starts_with_marker(line@),
{
    let s = line.as_str();
    if s.unicode_len() < 5 {
        return false;
    }
    let b = s.get_char(0) == '<' && s.get_char(1) == '?' && s.get_char(2) == 'p' && s.get_char(3)
        == 'h' && s.get_char(4) == 'p';
    proof {
        if b {
            assert(line@.subrange(0, 5) =~= open_tag_marker());
        } else {
            if line@.subrange(0, 5) == open_tag_marker() {
                assert(line@[0] == '<' && line@[1] == '?' && line@[2] == 'p' && line@[3] == 'h'
                    && line@[4] == 'p');
            }
        }
    }
    b
}

/// Builds the buffer for one window and one variant.
pub fn build_candidate(lines: &Vec<String>, start: usize, end: usize, variant: Variant) -> (buf:
    String)
    requires
        start < end <= lines.len(),
    ensures
        buf@ == candidate_buffer(lines.deep_view(), start as int, end as int, variant),
{
    let mut buf = String::new();
    if !line_has_marker(&lines[start]) {
        buf.append("<?php\n");
        proof {
            reveal_strlit("<?php\n");
            assert(("<?php\n")@ =~= open_tag_line());
        }
    }
    let ghost tag = buf@;
    if let Variant::WrappedInClass = variant {
        buf.append("class Foo {");
        proof {
            reveal_strlit("class Foo {");
            assert(("class Foo {")@ =~= class_opener());
        }
    }
    let ghost head = buf@;
    let mut i: usize = start;
    proof {
        assert(lines.deep_view().subrange(start as int, start as int)
            =~= Seq::<Seq<char>>::empty());
    }
    while i < end
        invariant
            start <= i <= end <= lines.len(),
            buf@ == head + terminated_lines(
                lines.deep_view().subrange(start as int, i as int),
            ),
        decreases end - i,
    {
        let ghost prev = lines.deep_view().subrange(start as int, i as int);
        buf.append(lines[i].as_str());
        buf.append("\n");
        proof {
            reveal_strlit("\n");
            assert(("\n")@ =~= seq!['\n']);
            lemma_terminated_push(prev, lines.deep_view()[i as int]);
            assert(lines.deep_view().subrange(start as int, i + 1) =~= prev.push(
                lines.deep_view()[i as int],
            ));
            assert(head + (terminated_lines(prev) + lines.deep_view()[i as int] + seq!['\n'])
                =~= (head + terminated_lines(prev)) + lines.deep_view()[i as int] + seq!['\n']);
        }
        i = i + 1;
    }
    if let Variant::WrappedInClass = variant {
        buf.append("}");
        proof {
            reveal_strlit("}");
            assert(("}")@ =~= class_closer());
        }
    }
    proof {
        let lv = lines.deep_view();
        let body = terminated_lines(lv.subrange(start as int, end as int));
        match variant {
            Variant::Plain => {
                assert(buf@ =~= tag + body);
            },
            Variant::WrappedInClass => {
                assert(buf@ =~= tag + class_opener() + body + class_closer());
            },
        }
    }
    buf
}

/// Builds both candidates for one window: exactly one per variant.  The two
/// are validated concurrently by the caller; their order here carries no
/// meaning.
pub fn build_candidates(lines: &Vec<String>, start: usize, end: usize) -> (cs: Vec<Candidate>)
    requires
        start < end <= lines.len(),
    ensures
        cs.len() == CANDIDATES_PER_WINDOW,
        cs[0].variant == Variant::Plain,
        cs[0].buffer@ == candidate_buffer(lines.deep_view(), start as int, end as int,
            Variant::Plain),
        cs[1].variant == Variant::WrappedInClass,
        cs[1].buffer@ == candidate_buffer(lines.deep_view(), start as int, end as int,
            Variant::WrappedInClass),
{
    let plain = Candidate { variant: Variant::Plain, buffer: build_candidate(lines, start, end,
        Variant::Plain) };
    let wrapped = Candidate { variant: Variant::WrappedInClass, buffer: build_candidate(lines,
        start, end, Variant::WrappedInClass) };
    let mut cs: Vec<Candidate> = Vec::new();
    cs.push(plain);
    cs.push(wrapped);
    cs
}

} // verus!
