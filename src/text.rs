//! Splitting text into lines, and building strings a character at a time.
use vstd::prelude::*;

verus! {

/// Relies on `String::push`: the character is added at the end.
#[verifier::external_body]
pub(crate) fn push_char(s: &mut String, c: char)
    ensures
        final(s)@ == old(s)@.push(c),
{
    s.push(c)
}

/// Reading `s` from the left: the lines closed by a `'\n'` so far, and the
/// characters seen since the last `'\n'`.
pub open spec fn scan(s: Seq<char>) -> (Seq<Seq<char>>, Seq<char>)
    decreases s.len(),
{
    if s.len() == 0 {
        (seq![], seq![])
    } else {
        let (done, cur) = scan(s.drop_last());
        if s.last() == '\n' {
            (done.push(cur), seq![])
        } else {
            (done, cur.push(s.last()))
        }
    }
}

/// The lines of `s`: the pieces between `'\n'`s, where a final `'\n'` closes
/// the last line rather than opening an empty one.
pub open spec fn lines_of(s: Seq<char>) -> Seq<Seq<char>> {
    let (done, cur) = scan(s);
    if cur.len() == 0 {
        done
    } else {
        done.push(cur)
    }
}

/// Whether `s` holds no `'\n'`.
pub open spec fn one_line(s: Seq<char>) -> bool {
    forall|i: int| 0 <= i < s.len() ==> s[i] != '\n'
}

/// The model of a list of strings.
pub open spec fn strings_view(v: Seq<String>) -> Seq<Seq<char>> {
    v.map_values(|s: String| s@)
}

/// The lines of `s`, each without its `'\n'`.
pub fn split_lines(s: &str) -> (r: Vec<String>)
    ensures
        strings_view(r@) == lines_of(s@),
{
    let mut done: Vec<String> = Vec::new();
    let mut cur = String::new();
    for c in it: s.chars()
        invariant
            it.seq() == s@,
            (strings_view(done@), cur@) == scan(s@.take(it.index() as int)),
    {
        let ghost i = it.index() as int;
        assert(s@.take(i + 1).drop_last() =~= s@.take(i));
        if c == '\n' {
            let ghost old_done = done@;
            done.push(cur);
            cur = String::new();
            assert(strings_view(done@) =~= strings_view(old_done).push(scan(s@.take(i)).1));
        } else {
            push_char(&mut cur, c);
        }
    }
    assert(s@.take(s@.len() as int) =~= s@);
    if cur.unicode_len() > 0 {
        let ghost old_done = done@;
        done.push(cur);
        assert(strings_view(done@) =~= strings_view(old_done).push(scan(s@).1));
    }
    done
}

} // verus!
