//! The editor directory: extracting the set of editor identities from the
//! repository's configuration text. Only the shape of a two-space-indented
//! list item is relied upon; all other structure in the text is ignored.

use crate::identity::IdentitySet;
use crate::text::{lower_of, lowercase, split_on, split_str};
use vstd::prelude::*;
use vstd::string::*;

verus! {

/// Whether one line of the configuration text is a two-space-indented list
/// item (`  - name`) with a nonempty name.
pub open spec fn is_editor_line(line: Seq<char>) -> bool {
    line.len() > 4 && line[0] == ' ' && line[1] == ' ' && line[2] == '-' && line[3] == ' '
}

/// The name captured from an editor line: everything after the marker, to
/// the end of the line.
pub open spec fn editor_line_name(line: Seq<char>) -> Seq<char> {
    line.subrange(4, line.len() as int)
}

/// The editor identities declared by a sequence of lines: the lower-cased
/// name of every editor line.
pub open spec fn editors_of_lines(lines: Seq<Seq<char>>) -> Set<Seq<char>>
    decreases lines.len(),
{
    if lines.len() == 0 {
        Set::empty()
    } else {
        let rest = editors_of_lines(lines.drop_last());
        if is_editor_line(lines.last()) {
            rest.insert(lower_of(editor_line_name(lines.last())))
        } else {
            rest
        }
    }
}

/// The editor identities declared by the whole configuration text, whose
/// lines are the pieces between newlines.
pub open spec fn editor_entries(content: Seq<char>) -> Set<Seq<char>> {
    editors_of_lines(split_on(content, '\n'))
}

/// Builds the run-wide editor set from the configuration text: every line of
/// the shape `  - name` contributes its name, lower-cased.
pub fn parse_editor_list(content: &str) -> (r: IdentitySet)
    ensures
        r@ == editor_entries(content@),
{
    let lines = split_str(content, '\n');
    let mut r = IdentitySet::new();
    let mut i: usize = 0;
    proof {
        assert(lines.deep_view().take(0) =~= Seq::<Seq<char>>::empty());
    }
    while i < lines.len()
        invariant
            i <= lines.len(),
            lines.deep_view() == split_on(content@, '\n'),
            r@ == editors_of_lines(lines.deep_view().take(i as int)),
        decreases lines.len() - i,
    {
        let ghost prefix = lines.deep_view().take(i as int + 1);
        proof {
            assert(prefix.drop_last() =~= lines.deep_view().take(i as int));
            assert(prefix.last() == lines.deep_view()[i as int]);
        }
        let line = &lines[i];
        let n = line.as_str().unicode_len();
        if n > 4 && line.as_str().get_char(0) == ' ' && line.as_str().get_char(1) == ' '
            && line.as_str().get_char(2) == '-' && line.as_str().get_char(3) == ' ' {
            let name = line.as_str().substring_char(4, n);
            proof {
                assert(is_editor_line(line@));
                assert(name@ == editor_line_name(line@));
            }
            r.insert(lowercase(name));
        } else {
            proof {
                assert(!is_editor_line(line@));
            }
        }
        i += 1;
    }
    proof {
        assert(lines.deep_view().take(lines.len() as int) =~= lines.deep_view());
    }
    r
}

} // verus!
