//! Listing the store: every line, or the lines of unfinished tasks only.
use vstd::prelude::*;
use crate::store::opens_with_marker;
use crate::task::{opens_with, Style};
use crate::text::{lines_of, split_lines, strings_view};

verus! {

/// The style of a stored line: finished when it opens with the finished
/// marker, unfinished otherwise.
pub open spec fn style_of(line: Seq<char>) -> Style {
    if opens_with(line, true) {
        Style::Finished
    } else {
        Style::Unfinished
    }
}

/// Whether a stored line belongs to an unfinished task.
pub open spec fn is_open_line(line: Seq<char>) -> bool {
    !opens_with(line, true)
}

/// A line as listed, with its style.
pub open spec fn styled(line: Seq<char>) -> (Seq<char>, Style) {
    (line, style_of(line))
}

/// What the full listing shows: every line of the store, in order.
pub open spec fn shown_all(s: Seq<char>) -> Seq<(Seq<char>, Style)> {
    lines_of(s).map_values(|l: Seq<char>| styled(l))
}

/// What the default listing shows: the lines that do not open with the
/// finished marker, in order.
pub open spec fn shown_unfinished(s: Seq<char>) -> Seq<(Seq<char>, Style)> {
    lines_of(s).filter(|l: Seq<char>| is_open_line(l)).map_values(|l: Seq<char>| styled(l))
}

/// Whether a listed line is not a finished one.
pub open spec fn not_finished(p: (Seq<char>, Style)) -> bool {
    p.1 != Style::Finished
}

/// A stored line as listed.
#[derive(Clone, Debug, PartialEq, Eq)]
pub struct Listed {
    pub line: String,
    pub style: Style,
}

impl View for Listed {
    type V = (Seq<char>, Style);

    open spec fn view(&self) -> (Seq<char>, Style) {
        (self.line@, self.style)
    }
}

/// The model of a listing.
pub open spec fn listed_view(v: Seq<Listed>) -> Seq<(Seq<char>, Style)> {
    v.map_values(|x: Listed| x@)
}

/// The style of a stored line.
pub fn line_style(line: &str) -> (r: Style)
    ensures
        r == style_of(line@),
{
    if opens_with_marker(line, true) {
        Style::Finished
    } else {
        Style::Unfinished
    }
}

/// The listing of the store `contents`: every line when `all` holds, else
/// the lines of unfinished tasks; in store order either way.
pub fn listing(contents: &str, all: bool) -> (r: Vec<Listed>)
    ensures
        listed_view(r@) == if all {
            shown_all(contents@)
        } else {
            shown_unfinished(contents@)
        },
{
    let lines = split_lines(contents);
    let ghost ls = lines_of(contents@);
    let ghost keep = |l: Seq<char>| all || is_open_line(l);
    let mut out: Vec<Listed> = Vec::new();
    let mut i: usize = 0;
    while i < lines.len()
        invariant
            ls == lines_of(contents@),
            strings_view(lines@) == ls,
            keep == (|l: Seq<char>| all || is_open_line(l)),
            i <= lines.len(),
            listed_view(out@) == ls.take(i as int).filter(keep).map_values(
                |l: Seq<char>| styled(l),
            ),
        decreases lines.len() - i,
    {
        let line = lines[i].as_str();
        assert(line@ == ls[i as int]);
        let style = line_style(line);
        let ghost before = ls.take(i as int).filter(keep);
        proof {
            reveal(Seq::filter);
            assert(ls.take(i + 1).drop_last() =~= ls.take(i as int));
            assert(ls.take(i + 1).last() == ls[i as int]);
        }
        if all || style == Style::Unfinished {
            let ghost old_out = out@;
            out.push(Listed { line: String::from_str(line), style });
            assert(listed_view(out@) =~= listed_view(old_out).push(styled(ls[i as int])));
            assert(ls.take(i + 1).filter(keep) == before.push(ls[i as int]));
            assert(before.push(ls[i as int]).map_values(|l: Seq<char>| styled(l))
                =~= before.map_values(|l: Seq<char>| styled(l)).push(styled(ls[i as int])));
        } else {
            assert(ls.take(i + 1).filter(keep) == before);
        }
        i = i + 1;
    }
    assert(ls.take(ls.len() as int) =~= ls);
    proof {
        if all {
            lemma_filter_all(ls, keep);
        } else {
            assert(keep =~= (|l: Seq<char>| is_open_line(l)));
        }
    }
    out
}

/// A filter that keeps everything changes nothing.
proof fn lemma_filter_all(ls: Seq<Seq<char>>, keep: spec_fn(Seq<char>) -> bool)
    requires
        forall|l: Seq<char>| #[trigger] keep(l),
    ensures
        ls.filter(keep) == ls,
    decreases ls.len(),
{
    reveal(Seq::filter);
    if ls.len() > 0 {
        lemma_filter_all(ls.drop_last(), keep);
        assert(ls.drop_last().push(ls.last()) =~= ls);
    }
}

/// Styling the open lines of `ls` gives the styled lines of `ls` without the
/// finished ones.
proof fn lemma_styled_open_lines(ls: Seq<Seq<char>>)
    ensures
        ls.filter(|l: Seq<char>| is_open_line(l)).map_values(|l: Seq<char>| styled(l))
            == ls.map_values(|l: Seq<char>| styled(l)).filter(|p: (Seq<char>, Style)| not_finished(p)),
    decreases ls.len(),
{
    reveal(Seq::filter);
    let open_lines = |l: Seq<char>| is_open_line(l);
    let unfinished = |p: (Seq<char>, Style)| not_finished(p);
    let sty = |l: Seq<char>| styled(l);
    if ls.len() == 0 {
        assert(ls.filter(open_lines).map_values(sty) =~= seq![]);
        assert(ls.map_values(sty) =~= seq![]);
    } else {
        let rest = ls.drop_last();
        lemma_styled_open_lines(rest);
        assert(ls.map_values(sty).drop_last() =~= rest.map_values(sty));
        assert(ls.map_values(sty).last() == styled(ls.last()));
        if is_open_line(ls.last()) {
            assert(rest.filter(open_lines).push(ls.last()).map_values(sty)
                =~= rest.filter(open_lines).map_values(sty).push(styled(ls.last())));
        }
    }
}

/// The default listing shows exactly the lines of the full listing that are
/// not finished, in the same order.
pub proof fn law_default_listing_filters_full(s: Seq<char>)
    ensures
        shown_unfinished(s) == shown_all(s).filter(|p: (Seq<char>, Style)| not_finished(p)),
{
    lemma_styled_open_lines(lines_of(s));
}

} // verus!
