//! What an export writes: one file per field, and what goes to the console
//! when no folder is given.

use vstd::prelude::*;

use crate::extract::{items_view, strings_view, ExportItem};
use crate::text::{
    is_reserved_name, is_unsafe_filename_char, lemma_sanitized_is_safe, sanitize_filename, sanitized,
};

verus! {

/// A file to write: its name inside the target folder and its contents.
pub struct ExportFile {
    pub file_name: String,
    pub contents: String,
}

impl View for ExportFile {
    type V = (Seq<char>, Seq<char>);

    open spec fn view(&self) -> (Seq<char>, Seq<char>) {
        (self.file_name@, self.contents@)
    }
}

/// The (file name, contents) pairs of a sequence of files.
pub open spec fn files_view(s: Seq<ExportFile>) -> Seq<(Seq<char>, Seq<char>)> {
    s.map_values(|x: ExportFile| x@)
}

/// The file written for an exported (name, text) pair.
pub open spec fn file_for(item: (Seq<char>, Seq<char>)) -> (Seq<char>, Seq<char>) {
    (sanitized(item.0), item.1)
}

/// The files written for a sequence of exported pairs, in order.
pub open spec fn files_for(items: Seq<(Seq<char>, Seq<char>)>) -> Seq<(Seq<char>, Seq<char>)> {
    items.map_values(|p: (Seq<char>, Seq<char>)| file_for(p))
}

/// No planned file name is empty, `.` or `..`, nor holds a character that is
/// unsafe in a file name, and each file holds the text of its field.
pub proof fn lemma_planned_files_safe(items: Seq<(Seq<char>, Seq<char>)>)
    ensures
        files_for(items).len() == items.len(),
        forall|i: int| 0 <= i < items.len() ==> !is_reserved_name(#[trigger] files_for(items)[i].0),
        forall|i: int, j: int|
            0 <= i < items.len() && 0 <= j < files_for(items)[i].0.len() ==> !is_unsafe_filename_char(
                #[trigger] files_for(items)[i].0[j],
            ),
        forall|i: int| 0 <= i < items.len() ==> #[trigger] files_for(items)[i].1 == items[i].1,
{
    assert forall|i: int, j: int|
        0 <= i < items.len() && 0 <= j < files_for(items)[i].0.len() implies !is_unsafe_filename_char(
        #[trigger] files_for(items)[i].0[j],
    ) by {
        lemma_sanitized_is_safe(items[i].0);
    }
    assert forall|i: int| 0 <= i < items.len() implies !is_reserved_name(
        #[trigger] files_for(items)[i].0,
    ) by {
        lemma_sanitized_is_safe(items[i].0);
    }
}

/// One file per exported field, named by the field's sanitised name and
/// holding its text; files are written in this order, so a later file
/// replaces an earlier one of the same name.
pub fn export_plan(items: &Vec<ExportItem>) -> (res: Vec<ExportFile>)
    ensures
        files_view(res@) == files_for(items_view(items@)),
{
    let mut res: Vec<ExportFile> = Vec::new();
    let mut i: usize = 0;
    while i < items.len()
        invariant
            i <= items@.len(),
            files_view(res@) == files_for(items_view(items@.take(i as int))),
        decreases items@.len() - i,
    {
        let item = &items[i];
        let ghost before = res@;
        proof {
            assert(items@.take(i + 1) == items@.take(i as int).push(items@[i as int]));
            assert(items_view(items@.take(i + 1)) =~= items_view(items@.take(i as int)).push(
                item@,
            ));
        }
        res.push(
            ExportFile { file_name: sanitize_filename(item.name.as_str()), contents: item.value.clone() },
        );
        proof {
            assert(files_view(res@) =~= files_view(before).push(file_for(item@)));
            assert(files_view(res@) =~= files_for(items_view(items@.take(i + 1))));
        }
        i = i + 1;
    }
    proof {
        assert(items@.take(items@.len() as int) == items@);
    }
    res
}

/// The lines printed when no folder is given: the values on standard output
/// when a single field was asked for, the field names on standard error
/// otherwise.
pub struct ConsoleOutput {
    pub stdout: Vec<String>,
    pub stderr: Vec<String>,
}

/// The names of a sequence of exported pairs.
pub open spec fn names_of(items: Seq<(Seq<char>, Seq<char>)>) -> Seq<Seq<char>> {
    items.map_values(|p: (Seq<char>, Seq<char>)| p.0)
}

/// The texts of a sequence of exported pairs.
pub open spec fn values_of(items: Seq<(Seq<char>, Seq<char>)>) -> Seq<Seq<char>> {
    items.map_values(|p: (Seq<char>, Seq<char>)| p.1)
}

/// What is printed for the exported items when no folder is given.
pub fn console_output(items: &Vec<ExportItem>, field_requested: bool) -> (res: ConsoleOutput)
    ensures
        field_requested ==> strings_view(res.stdout@) == values_of(items_view(items@))
            && res.stderr@.len() == 0,
        !field_requested ==> strings_view(res.stderr@) == names_of(items_view(items@))
            && res.stdout@.len() == 0,
{
    let mut lines: Vec<String> = Vec::new();
    let mut i: usize = 0;
    while i < items.len()
        invariant
            i <= items@.len(),
            field_requested ==> strings_view(lines@) == values_of(
                items_view(items@.take(i as int)),
            ),
            !field_requested ==> strings_view(lines@) == names_of(
                items_view(items@.take(i as int)),
            ),
        decreases items@.len() - i,
    {
        let item = &items[i];
        let ghost before = lines@;
        proof {
            assert(items@.take(i + 1) == items@.take(i as int).push(items@[i as int]));
            assert(items_view(items@.take(i + 1)) =~= items_view(items@.take(i as int)).push(
                item@,
            ));
        }
        if field_requested {
            lines.push(item.value.clone());
            proof {
                assert(strings_view(lines@) =~= strings_view(before).push(item.value@));
                assert(strings_view(lines@) =~= values_of(items_view(items@.take(i + 1))));
            }
        } else {
            lines.push(item.name.clone());
            proof {
                assert(strings_view(lines@) =~= strings_view(before).push(item.name@));
                assert(strings_view(lines@) =~= names_of(items_view(items@.take(i + 1))));
            }
        }
        i = i + 1;
    }
    proof {
        assert(items@.take(items@.len() as int) == items@);
    }
    if field_requested {
        ConsoleOutput { stdout: lines, stderr: Vec::new() }
    } else {
        ConsoleOutput { stdout: Vec::new(), stderr: lines }
    }
}

} // verus!
