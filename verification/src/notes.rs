//! Freeform notes: a workspace's notes file holds blocks of non-blank lines,
//! separated by blank lines. Each block is one note; a note records the file
//! it came from and the line where its block ended.

use vstd::prelude::*;
use crate::text::{spec_lines, lines_view, str_chars, chars_to_string, split_lines};

verus! {

/// The mathematical value of a note.
pub struct NoteSpec {
    pub text: Seq<char>,
    pub path: Seq<char>,
    pub line: int,
}

/// One note: a contiguous block of non-blank lines, each kept with its
/// newline.
pub struct Note {
    pub text: String,
    pub path: String,
    pub line: usize,
}

impl View for Note {
    type V = NoteSpec;

    open spec fn view(&self) -> NoteSpec {
        NoteSpec { text: self.text@, path: self.path@, line: self.line as int }
    }
}

/// The views of a sequence of notes.
pub open spec fn notes_view(v: Seq<Note>) -> Seq<NoteSpec> {
    v.map_values(|n: Note| n@)
}

/// The notes of the lines from `i` on, with `cur` the block gathered so far:
/// a blank line closes a block at its own index; a block still open at the
/// end closes at `total`.
pub open spec fn notes_rec(
    lines: Seq<Seq<char>>,
    path: Seq<char>,
    i: int,
    cur: Seq<char>,
    total: int,
) -> Seq<NoteSpec>
    decreases lines.len() - i,
{
    if i < 0 || i >= lines.len() {
        if cur.len() == 0 {
            Seq::empty()
        } else {
            seq![NoteSpec { text: cur, path, line: total }]
        }
    } else if lines[i].len() == 0 {
        if cur.len() > 0 {
            seq![NoteSpec { text: cur, path, line: i }] + notes_rec(
                lines,
                path,
                i + 1,
                Seq::empty(),
                total,
            )
        } else {
            notes_rec(lines, path, i + 1, cur, total)
        }
    } else {
        notes_rec(lines, path, i + 1, cur + lines[i] + seq!['\n'], total)
    }
}

/// The notes a file's text yields.
pub open spec fn spec_notes(text: Seq<char>, path: Seq<char>) -> Seq<NoteSpec> {
    notes_rec(spec_lines(text), path, 0, Seq::empty(), spec_lines(text).len() as int)
}

/// Splits a notes file into its notes: blocks of non-blank lines, separated
/// by blank lines, in file order.
pub fn load_notes(path: &str, text: &str) -> (r: Vec<Note>)
    ensures
        notes_view(r@) == spec_notes(text@, path@),
{
    let v = str_chars(text);
    let lines = split_lines(&v);
    let ghost lv = lines_view(lines@);
    let n = lines.len();
    let mut r: Vec<Note> = Vec::new();
    let mut cur: Vec<char> = Vec::new();
    let mut i: usize = 0;
    proof {
        assert(notes_view(r@) =~= Seq::<NoteSpec>::empty());
        assert(notes_view(r@) + notes_rec(lv, path@, 0, cur@, n as int) =~= notes_rec(
            lv,
            path@,
            0,
            cur@,
            n as int,
        ));
    }
    while i < n
        invariant
            i <= n,
            n == lines@.len(),
            lv == lines_view(lines@),
            lv == spec_lines(text@),
            spec_notes(text@, path@) == notes_view(r@) + notes_rec(
                lv,
                path@,
                i as int,
                cur@,
                n as int,
            ),
        decreases n - i,
    {
        let line = &lines[i];
        proof {
            assert(lv[i as int] == lines@[i as int]@);
        }
        if line.len() == 0 {
            if cur.len() > 0 {
                let done = chars_to_string(&cur);
                let note = Note { text: done, path: String::from_str(path), line: i };
                let ghost r0 = notes_view(r@);
                let ghost nv = note@;
                r.push(note);
                cur = Vec::new();
                proof {
                    assert(notes_view(r@) =~= r0.push(nv));
                    assert(r0 + (seq![nv] + notes_rec(lv, path@, i as int + 1, cur@, n as int))
                        =~= r0.push(nv) + notes_rec(lv, path@, i as int + 1, cur@, n as int));
                }
            }
        } else {
            let ghost c0 = cur@;
            crate::text::append_chars(&mut cur, line);
            cur.push('\n');
            proof {
                assert(cur@ =~= c0 + lv[i as int] + seq!['\n']);
            }
        }
        i = i + 1;
    }
    if cur.len() > 0 {
        let done = chars_to_string(&cur);
        let note = Note { text: done, path: String::from_str(path), line: n };
        let ghost r0 = notes_view(r@);
        let ghost nv = note@;
        r.push(note);
        proof {
            assert(notes_view(r@) =~= r0.push(nv));
            assert(r0 + seq![nv] =~= r0.push(nv));
        }
    } else {
        proof {
            assert(notes_view(r@) + Seq::<NoteSpec>::empty() =~= notes_view(r@));
        }
    }
    r
}

} // verus!
