//! The line model of a message: splitting text into lines, joining a range of
//! lines back into a fragment, and the cheap character filter that lets prose
//! skip the search entirely.

use vstd::prelude::*;

verus! {

/// The characters whose presence is a necessary condition for a message to
/// hold code: statement terminators, variable sigils, block openers.
pub open spec fn is_trigger_char(c: char) -> bool {
    c == ';' || c == '$' || c == '{'
}

/// Whether the text holds at least one trigger character.
pub open spec fn has_trigger(s: Seq<char>) -> bool {
    exists|i: int| 0 <= i < s.len() && is_trigger_char(s[i])
}

/// A single line: no newline inside it.
pub open spec fn newline_free(l: Seq<char>) -> bool {
    forall|i: int| 0 <= i < l.len() ==> l[i] != '\n'
}

pub open spec fn all_newline_free(lines: Seq<Seq<char>>) -> bool {
    forall|i: int| 0 <= i < lines.len() ==> newline_free(#[trigger] lines[i])
}

/// The lines joined with a single `'\n'` between neighbours and nothing at
/// either end; the empty sequence of lines joins to the empty text.
pub open spec fn join_lines(lines: Seq<Seq<char>>) -> Seq<char>
    decreases lines.len(),
{
    if lines.len() == 0 {
        Seq::empty()
    } else if lines.len() == 1 {
        lines[0]
    } else {
        lines[0] + seq!['\n'] + join_lines(lines.drop_first())
    }
}

/// `lines` is the (unique) decomposition of `text` at newline boundaries:
/// every element is newline-free and joining them restores the text.
pub open spec fn is_line_split(text: Seq<char>, lines: Seq<Seq<char>>) -> bool {
    &&& lines.len() >= 1
    &&& all_newline_free(lines)
    &&& join_lines(lines) == text
}

/// Appending one more line to a non-empty sequence extends the join by a
/// separator and that line.
pub proof fn lemma_join_push(lines: Seq<Seq<char>>, l: Seq<char>)
    ensures
        join_lines(lines.push(l)) == if lines.len() == 0 {
            l
        } else {
            join_lines(lines) + seq!['\n'] + l
        },
    decreases lines.len(),
{
    if lines.len() == 0 {
        assert(lines.push(l).len() == 1);
        assert(lines.push(l)[0] == l);
    } else if lines.len() == 1 {
        assert(lines.push(l).drop_first() =~= seq![l]);
        assert(join_lines(seq![l]) == l);
        assert(lines.push(l)[0] == lines[0]);
        assert(join_lines(lines.push(l)) == lines[0] + seq!['\n'] + l);
    } else {
        assert(lines.push(l).drop_first() =~= lines.drop_first().push(l));
        lemma_join_push(lines.drop_first(), l);
        assert(join_lines(lines.push(l)) == lines[0] + seq!['\n'] + (join_lines(
            lines.drop_first(),
        ) + seq!['\n'] + l));
        assert(lines[0] + seq!['\n'] + (join_lines(lines.drop_first()) + seq!['\n'] + l) =~= (
        lines[0] + seq!['\n'] + join_lines(lines.drop_first())) + seq!['\n'] + l);
    }
}

/// A text decomposes into newline-free lines in exactly one way, so
/// `is_line_split` pins `split_lines` down completely: "the lines of a
/// text", and with them the line count that decides whether a message is
/// long enough to search, are well defined.
pub proof fn lemma_line_split_unique(text: Seq<char>, a: Seq<Seq<char>>, b: Seq<Seq<char>>)
    requires
        is_line_split(text, a),
        is_line_split(text, b),
    ensures
        a =~~= b,
    decreases a.len(),
{
    if a.len() == 1 && b.len() == 1 {
        assert(a[0] == text && b[0] == text);
    } else if a.len() >= 2 && b.len() >= 2 {
        if a[0].len() <= b[0].len() {
            lemma_first_line_agrees(text, a, b);
        } else {
            lemma_first_line_agrees(text, b, a);
        }
        let k = a[0].len() as int;
        let ta = a.drop_first();
        let tb = b.drop_first();
        lemma_join_tail(text, a);
        lemma_join_tail(text, b);
        assert(is_line_split(text.subrange(k + 1, text.len() as int), ta));
        assert(is_line_split(text.subrange(k + 1, text.len() as int), tb));
        lemma_line_split_unique(text.subrange(k + 1, text.len() as int), ta, tb);
        assert forall|i: int| 0 <= i < a.len() implies a[i] == b[i] by {
            if i > 0 {
                assert(ta[i - 1] == tb[i - 1]);
            }
        }
        assert(a =~~= b);
    } else if a.len() == 1 {
        // b splits in two or more lines, so text holds a newline at the end
        // of b's first line; yet a's single line is text itself, newline-free.
        let k = b[0].len() as int;
        assert(text == b[0] + seq!['\n'] + join_lines(b.drop_first()));
        assert(text[k] == '\n');
        assert(a[0] == text && newline_free(a[0]));
    } else {
        let k = a[0].len() as int;
        assert(text == a[0] + seq!['\n'] + join_lines(a.drop_first()));
        assert(text[k] == '\n');
        assert(b[0] == text && newline_free(b[0]));
    }
}

/// When both splits hold at least two lines and the first's opening line is
/// no longer than the second's, the opening lines coincide.
proof fn lemma_first_line_agrees(text: Seq<char>, a: Seq<Seq<char>>, b: Seq<Seq<char>>)
    requires
        is_line_split(text, a),
        is_line_split(text, b),
        a.len() >= 2,
        b.len() >= 2,
        a[0].len() <= b[0].len(),
    ensures
        a[0] =~= b[0],
{
    let ka = a[0].len() as int;
    let kb = b[0].len() as int;
    assert(text == a[0] + seq!['\n'] + join_lines(a.drop_first()));
    assert(text == b[0] + seq!['\n'] + join_lines(b.drop_first()));
    assert(text[ka] == '\n');
    assert(newline_free(b[0]));
    if ka < kb {
        assert(text[ka] == b[0][ka]);
        assert(false);
    }
    assert forall|i: int| 0 <= i < ka implies a[0][i] == b[0][i] by {
        assert(text[i] == a[0][i]);
        assert(text[i] == b[0][i]);
    }
}

/// In a split of two or more lines, the text past the first separator is
/// split by the remaining lines.
proof fn lemma_join_tail(text: Seq<char>, a: Seq<Seq<char>>)
    requires
        is_line_split(text, a),
        a.len() >= 2,
    ensures
        is_line_split(text.subrange(a[0].len() as int + 1, text.len() as int), a.drop_first()),
{
    let k = a[0].len() as int;
    assert(text == a[0] + seq!['\n'] + join_lines(a.drop_first()));
    assert(text.subrange(k + 1, text.len() as int) =~= join_lines(a.drop_first()));
    assert forall|i: int| 0 <= i < a.drop_first().len() implies newline_free(
        #[trigger] a.drop_first()[i],
    ) by {
        assert(a.drop_first()[i] == a[i + 1]);
    }
}

/// Splits the text at every `'\n'`.  The result is pinned down exactly:
/// it is the one decomposition of the text into newline-free lines.
pub fn split_lines(text: &str) -> (lines: Vec<String>)
    ensures
        is_line_split(text@, lines.deep_view()),
{
    let n = text.unicode_len();
    let mut lines: Vec<String> = Vec::new();
    let mut line_start: usize = 0;
    let mut i: usize = 0;
    while i < n
        invariant
            line_start <= i <= n == text@.len(),
            all_newline_free(lines.deep_view()),
            forall|j: int| line_start <= j < i ==> text@[j] != '\n',
            join_lines(lines.deep_view().push(text@.subrange(line_start as int, i as int)))
                == text@.subrange(0, i as int),
        decreases n - i,
    {
        let ghost prev = lines.deep_view();
        let ghost cur = text@.subrange(line_start as int, i as int);
        let c = text.get_char(i);
        if c == '\n' {
            let piece = text.substring_char(line_start, i);
            lines.push(String::from_str(piece));
            line_start = i + 1;
            proof {
                assert(lines.deep_view() =~= prev.push(cur));
                lemma_join_push(prev, cur);
                lemma_join_push(prev.push(cur), text@.subrange(i + 1, i + 1));
                assert(text@.subrange(i + 1, i + 1) =~= Seq::<char>::empty());
                if prev.len() == 0 {
                    assert(join_lines(prev.push(cur).push(text@.subrange(i + 1, i + 1))) =~= cur
                        + seq!['\n'] + Seq::<char>::empty());
                } else {
                    assert(join_lines(prev.push(cur).push(text@.subrange(i + 1, i + 1)))
                        =~= join_lines(prev.push(cur)) + seq!['\n'] + Seq::<char>::empty());
                }
                assert(join_lines(prev.push(cur).push(text@.subrange(i + 1, i + 1)))
                    =~= text@.subrange(0, i as int) + seq![text@[i as int]]);
                assert(text@.subrange(0, i as int) + seq![text@[i as int]] =~= text@.subrange(
                    0,
                    i + 1,
                ));
            }
        } else {
            proof {
                lemma_join_push(prev, cur);
                let cur2 = text@.subrange(line_start as int, i + 1);
                lemma_join_push(prev, cur2);
                assert(cur2 =~= cur + seq![text@[i as int]]);
                if prev.len() == 0 {
                    assert(join_lines(prev.push(cur2)) == cur2);
                } else {
                    assert(join_lines(prev.push(cur2)) == join_lines(prev) + seq!['\n'] + cur2);
                }
                assert(join_lines(prev.push(cur2)) =~= join_lines(prev.push(cur)) + seq![
                    text@[i as int]
                ]);
                assert(text@.subrange(0, i as int) + seq![text@[i as int]] =~= text@.subrange(
                    0,
                    i + 1,
                ));
            }
        }
        i = i + 1;
    }
    let ghost prev = lines.deep_view();
    let last = text.substring_char(line_start, n);
    lines.push(String::from_str(last));
    proof {
        assert(lines.deep_view() =~= prev.push(text@.subrange(line_start as int, n as int)));
        assert(text@.subrange(0, n as int) =~= text@);
        assert(newline_free(text@.subrange(line_start as int, n as int)));
        assert(all_newline_free(lines.deep_view()));
    }
    lines
}

/// Whether the text holds any of the trigger characters `;`, `$`, `{`.
/// Prose without them cannot hold a statement worth checking.
pub fn contains_trigger(text: &str) -> (b: bool)
    ensures
        b == has_trigger(text@),
{
    let n = text.unicode_len();
    let mut i: usize = 0;
    while i < n
        invariant
            i <= n == text@.len(),
            forall|j: int| 0 <= j < i ==> !is_trigger_char(text@[j]),
        decreases n - i,
    {
        let c = text.get_char(i);
        if c == ';' || c == '$' || c == '{' {
            assert(is_trigger_char(text@[i as int]));
            return true;
        }
        i = i + 1;
    }
    false
}

/// Joins the lines of the window `[start, end)` with single newlines: the
/// undecorated fragment text that a successful detection returns.
pub fn join_window(lines: &Vec<String>, start: usize, end: usize) -> (fragment: String)
    requires
        start < end <= lines.len(),
    ensures
        fragment@ == join_lines(lines.deep_view().subrange(start as int, end as int)),
{
    let mut fragment = String::from_str(lines[start].as_str());
    let mut i: usize = start + 1;
    proof {
        assert(lines.deep_view().subrange(start as int, start + 1) =~= seq![
            lines.deep_view()[start as int]
        ]);
    }
    while i < end
        invariant
            start < i <= end <= lines.len(),
            fragment@ == join_lines(lines.deep_view().subrange(start as int, i as int)),
        decreases end - i,
    {
        let ghost prev = lines.deep_view().subrange(start as int, i as int);
        fragment.append("\n");
        fragment.append(lines[i].as_str());
        proof {
            reveal_strlit("\n");
            assert(("\n")@ =~= seq!['\n']);
            lemma_join_push(prev, lines.deep_view()[i as int]);
            assert(lines.deep_view().subrange(start as int, i + 1) =~= prev.push(
                lines.deep_view()[i as int],
            ));
        }
        i = i + 1;
    }
    fragment
}

} // verus!
