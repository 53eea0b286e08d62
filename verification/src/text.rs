//! Turns rendered entries into plain text lines: indentation, the `- ` bullet,
//! the `name (id)` form, and the two boundary markers.

use vstd::prelude::*;

use crate::render::EntryModel;
use crate::render::RenderEntry;

verus! {

/// Relies on `String::push_str` of std: appends the given string slice onto
/// the end of the string.
pub assume_specification[ String::push_str ](s: &mut String, other: &str)
    ensures
        final(s)@ == old(s)@ + other@,
;

/// Relies on `String::push` of std: appends the given character onto the end
/// of the string.
pub assume_specification[ String::push ](s: &mut String, ch: char)
    ensures
        final(s)@ == old(s)@.push(ch),
;

/// `n` spaces.
pub open spec fn spaces(n: int) -> Seq<char>
    decreases n,
{
    if n <= 0 {
        Seq::empty()
    } else {
        spaces(n - 1).push(' ')
    }
}

/// The text of one rendered entry.
pub open spec fn line_of(e: EntryModel) -> Seq<char> {
    match e {
        EntryModel::Visited { level, name, id } => if level == 0 {
            name + " ("@ + id + ")"@
        } else {
            spaces(level) + "- "@ + name + " ("@ + id + ")"@
        },
        EntryModel::Cycle { level } => spaces(level) + " <Circular dependency>"@,
        EntryModel::End { level } => spaces(level) + "- <End>"@,
    }
}

/// The text of a whole rendered tree, one line per entry.
pub open spec fn lines_of(es: Seq<EntryModel>) -> Seq<Seq<char>> {
    es.map_values(|e: EntryModel| line_of(e))
}

/// A string of `n` spaces.
fn make_spaces(n: usize) -> (r: String)
    ensures
        r@ == spaces(n as int),
{
    let mut r = String::new();
    let mut i: usize = 0;
    while i < n
        invariant
            i <= n,
            r@ == spaces(i as int),
        decreases n - i,
    {
        r.push(' ');
        i = i + 1;
    }
    r
}

/// The text line of one entry.
fn format_entry(e: &RenderEntry) -> (r: String)
    ensures
        r@ == line_of(e@),
{
    match e {
        RenderEntry::Visited { level, name, id } => {
            let mut r = if *level == 0 {
                String::new()
            } else {
                let mut s = make_spaces(*level);
                s.push_str("- ");
                s
            };
            r.push_str(name.as_str());
            r.push_str(" (");
            r.push_str(id.as_str());
            r.push_str(")");
            proof {
                assert(r@ =~= line_of(e@));
            }
            r
        },
        RenderEntry::Cycle { level } => {
            let mut r = make_spaces(*level);
            r.push_str(" <Circular dependency>");
            r
        },
        RenderEntry::End { level } => {
            let mut r = make_spaces(*level);
            r.push_str("- <End>");
            r
        },
    }
}

/// The plain-text lines of a rendered tree, one string per entry, in order.
pub fn render_text(entries: &Vec<RenderEntry>) -> (r: Vec<String>)
    ensures
        r.deep_view() == lines_of(entries.deep_view()),
{
    let mut r: Vec<String> = Vec::new();
    let mut i: usize = 0;
    while i < entries.len()
        invariant
            i <= entries.len(),
            r@.len() == i,
            forall|k: int| 0 <= k < i ==> r@[k]@ == line_of(entries@[k]@),
        decreases entries.len() - i,
    {
        r.push(format_entry(&entries[i]));
        i = i + 1;
    }
    proof {
        assert forall|k: int| 0 <= k < r@.len() implies r.deep_view()[k] == lines_of(
            entries.deep_view(),
        )[k] by {
            assert(r.deep_view()[k] == r@[k]@);
            assert(entries.deep_view()[k] == entries@[k]@);
        }
        assert(r.deep_view() =~= lines_of(entries.deep_view()));
    }
    r
}

} // verus!
