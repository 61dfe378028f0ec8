//! An experiment with the vector functions of databases: where it keeps its files, and
//! what it reports.

use crate::paths;
use crate::paths::FilePath;
use crate::text;
use vstd::prelude::*;

verus! {

/// The folder of one run of the experiment, by the time in milliseconds.
pub fn unique_test_dir(millis: u64) -> (dir: FilePath)
    ensures
        dir@ == paths::joined(
            vstd::utf8::encode_utf8("runs"@),
            vstd::utf8::encode_utf8("vector-test-"@ + text::decimal(millis as nat)),
        ),
{
    let mut name = text::owned("vector-test-");
    text::push_decimal(&mut name, millis);
    let runs = FilePath::parse("runs".as_bytes());
    runs.join_text(name.as_str())
}

/// The lines on the distances that were found, which come in as they are written.
pub open spec fn distance_lines(distances: Seq<(String, String)>) -> Seq<Seq<char>> {
    Seq::new(
        distances.len(),
        |i: int| "  "@ + distances[i].0@ + ": distance="@ + distances[i].1@,
    )
}

/// The lines on the nearest images.
pub open spec fn nearest_lines(nearest: Seq<(i64, String)>) -> Seq<Seq<char>> {
    Seq::new(
        nearest.len(),
        |i: int| "  "@ + text::signed_decimal(nearest[i].0 as int) + ": "@ + nearest[i].1@,
    )
}

/// The report on a database.
pub fn format_summary(distances: &Vec<(String, String)>, top_k: &Vec<(i64, String)>) -> (report:
    String)
    ensures
        report@ == "distance query:\n"@ + text::joined(distance_lines(distances@), "\n"@)
            + "\nindexed top-k:\n"@ + text::joined(nearest_lines(top_k@), "\n"@),
{
    let mut first: Vec<String> = Vec::new();
    let mut i: usize = 0;
    while i < distances.len()
        invariant
            i <= distances@.len(),
            first@.len() == i,
            forall|j: int| 0 <= j < i ==> (#[trigger] first@[j])@ == distance_lines(distances@)[j],
        decreases distances@.len() - i,
    {
        let mut line = text::owned("  ");
        text::push_text(&mut line, distances[i].0.as_str());
        text::push_text(&mut line, ": distance=");
        text::push_text(&mut line, distances[i].1.as_str());
        first.push(line);
        i += 1;
    }
    let mut second: Vec<String> = Vec::new();
    let mut k: usize = 0;
    while k < top_k.len()
        invariant
            k <= top_k@.len(),
            second@.len() == k,
            forall|j: int| 0 <= j < k ==> (#[trigger] second@[j])@ == nearest_lines(top_k@)[j],
        decreases top_k@.len() - k,
    {
        let mut line = text::owned("  ");
        text::push_signed(&mut line, top_k[k].0);
        text::push_text(&mut line, ": ");
        text::push_text(&mut line, top_k[k].1.as_str());
        second.push(line);
        k += 1;
    }
    assert(text::texts(first@) =~= distance_lines(distances@));
    assert(text::texts(second@) =~= nearest_lines(top_k@));
    let mut report = text::owned("distance query:\n");
    let distances_text = text::join(&first, "\n");
    text::push_text(&mut report, distances_text.as_str());
    text::push_text(&mut report, "\nindexed top-k:\n");
    let nearest_text = text::join(&second, "\n");
    text::push_text(&mut report, nearest_text.as_str());
    report
}

/// Every distance and every near image has a line of its own, in their order.
pub proof fn findings_have_a_line_each(
    distances: Seq<(String, String)>,
    nearest: Seq<(i64, String)>,
    i: int,
)
    ensures
        distance_lines(distances).len() == distances.len(),
        nearest_lines(nearest).len() == nearest.len(),
        0 <= i < distances.len() ==> distance_lines(distances)[i] == "  "@ + distances[i].0@
            + ": distance="@ + distances[i].1@,
        0 <= i < nearest.len() ==> nearest_lines(nearest)[i] == "  "@ + text::signed_decimal(
            nearest[i].0 as int,
        ) + ": "@ + nearest[i].1@,
{
}

}
