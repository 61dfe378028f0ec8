//! File paths as they are written and by their components, and the rules on file names:
//! stems, extensions, names that do not clash, which files are images.

use crate::text;
use vstd::prelude::*;

verus! {

/// A path as it is written: its components with slashes between them. Two paths that
/// are written differently, with more slashes or with dots between the components, can
/// have the same components.
#[derive(Debug)]
pub struct FilePath {
    pub written: Vec<u8>,
}

impl View for FilePath {
    type V = Seq<u8>;

    open spec fn view(&self) -> Seq<u8> {
        self.written@
    }
}

/// The paths of a list, each as it is written.
pub open spec fn paths_view(paths: Seq<FilePath>) -> Seq<Seq<u8>> {
    Seq::new(paths.len(), |i: int| paths[i]@)
}

/// The view of a path that may be missing.
pub open spec fn optional_view(path: Option<FilePath>) -> Option<Seq<u8>> {
    match path {
        Some(p) => Some(p@),
        None => None,
    }
}

/// The components of a path, each as its bytes.
pub open spec fn components(parts: Seq<Vec<u8>>) -> Seq<Seq<u8>> {
    Seq::new(parts.len(), |i: int| parts[i]@)
}

/// Whether two byte strings are the same.
pub fn same_bytes(a: &[u8], b: &[u8]) -> (same: bool)
    ensures
        same == (a@ == b@),
{
    if a.len() != b.len() {
        return false;
    }
    let mut i: usize = 0;
    while i < a.len()
        invariant
            i <= a.len(),
            a.len() == b.len(),
            a@.take(i as int) == b@.take(i as int),
        decreases a.len() - i,
    {
        if a[i] != b[i] {
            assert(a@[i as int] != b@[i as int]);
            return false;
        }
        assert(a@.take(i + 1) =~= a@.take(i as int).push(a@[i as int]));
        assert(b@.take(i + 1) =~= b@.take(i as int).push(b@[i as int]));
        i += 1;
    }
    assert(a@.take(i as int) =~= a@);
    assert(b@.take(i as int) =~= b@);
    true
}

/// A copy of a byte string.
pub fn copy_bytes(bytes: &[u8]) -> (out: Vec<u8>)
    ensures
        out@ == bytes@,
{
    let mut out: Vec<u8> = Vec::new();
    out.extend_from_slice(bytes);
    assert(out@ =~= bytes@);
    out
}

/// The bytes from `start` up to `end`.
pub fn byte_range(bytes: &[u8], start: usize, end: usize) -> (out: Vec<u8>)
    requires
        start <= end <= bytes@.len(),
    ensures
        out@ == bytes@.subrange(start as int, end as int),
{
    let mut out: Vec<u8> = Vec::new();
    let mut i: usize = start;
    while i < end
        invariant
            start <= i <= end <= bytes@.len(),
            out@ == bytes@.subrange(start as int, i as int),
        decreases end - i,
    {
        out.push(bytes[i]);
        assert(bytes@.subrange(start as int, i + 1) =~= bytes@.subrange(
            start as int,
            i as int,
        ).push(bytes@[i as int]));
        i += 1;
    }
    out
}

impl Clone for FilePath {
    fn clone(&self) -> (copy: Self)
        ensures
            copy@ == self@,
    {
        FilePath { written: copy_bytes(self.written.as_slice()) }
    }
}

/// A copy of a path that may be missing.
pub fn copy_optional(path: &Option<FilePath>) -> (copy: Option<FilePath>)
    ensures
        optional_view(copy) == optional_view(*path),
{
    match path {
        Some(p) => Some(p.clone()),
        None => None,
    }
}

/// The component that stands for the root directory.
pub open spec fn root_part() -> Seq<u8> {
    seq![47u8]
}

/// The component `.`, which only a relative path can start with.
pub open spec fn here_part() -> Seq<u8> {
    seq![46u8]
}

/// The component `..`.
pub open spec fn parent_part() -> Seq<u8> {
    seq![46u8, 46u8]
}

/// A component that names a file or a directory.
pub open spec fn is_named(part: Seq<u8>) -> bool {
    part != root_part() && part != here_part() && part != parent_part()
}

/// The place of a component's sort in the order of paths: the root first,
/// then `.`, then `..`, then names.
pub open spec fn part_rank(part: Seq<u8>) -> int {
    if part == root_part() {
        0
    } else if part == here_part() {
        1
    } else if part == parent_part() {
        2
    } else {
        3
    }
}

/// Byte strings in dictionary order.
pub open spec fn bytes_less(a: Seq<u8>, b: Seq<u8>) -> bool
    decreases a.len(),
{
    if b.len() == 0 {
        false
    } else if a.len() == 0 {
        true
    } else if a[0] != b[0] {
        a[0] < b[0]
    } else {
        bytes_less(a.drop_first(), b.drop_first())
    }
}

/// Components in order: by rank, names by their bytes.
pub open spec fn part_less(a: Seq<u8>, b: Seq<u8>) -> bool {
    if part_rank(a) != part_rank(b) {
        part_rank(a) < part_rank(b)
    } else {
        bytes_less(a, b)
    }
}

/// Components in order, one by one.
pub open spec fn parts_less(a: Seq<Seq<u8>>, b: Seq<Seq<u8>>) -> bool
    decreases a.len(),
{
    if b.len() == 0 {
        false
    } else if a.len() == 0 {
        true
    } else if a[0] != b[0] {
        part_less(a[0], b[0])
    } else {
        parts_less(a.drop_first(), b.drop_first())
    }
}

/// Two paths have the same components, however they are written.
pub open spec fn same_path(a: Seq<u8>, b: Seq<u8>) -> bool {
    parts_of(a) == parts_of(b)
}

/// A path is in a list, in some way of writing it.
pub open spec fn lists_path(list: Seq<Seq<u8>>, path: Seq<u8>) -> bool {
    exists|i: int| 0 <= i < list.len() && same_path(#[trigger] list[i], path)
}

/// No path is in a list twice, in whatever way it is written.
pub open spec fn all_differ(list: Seq<Seq<u8>>) -> bool {
    forall|i: int, j: int|
        0 <= i < j < list.len() ==> !same_path(#[trigger] list[i], #[trigger] list[j])
}

/// Paths in order: component by component, however they are written.
pub open spec fn path_less(a: Seq<u8>, b: Seq<u8>) -> bool {
    parts_less(parts_of(a), parts_of(b))
}

/// No path stands before one that is smaller.
pub open spec fn paths_sorted(paths: Seq<Seq<u8>>) -> bool {
    forall|i: int, j: int|
        0 <= i < j < paths.len() ==> !path_less(#[trigger] paths[j], #[trigger] paths[i])
}

proof fn lemma_bytes_trichotomy(a: Seq<u8>, b: Seq<u8>)
    ensures
        bytes_less(a, b) || bytes_less(b, a) || a == b,
        !(bytes_less(a, b) && bytes_less(b, a)),
        a == b ==> !bytes_less(a, b),
    decreases a.len(),
{
    if a.len() > 0 && b.len() > 0 && a[0] == b[0] {
        lemma_bytes_trichotomy(a.drop_first(), b.drop_first());
        if a.drop_first() == b.drop_first() {
            assert(a =~= seq![a[0]] + a.drop_first());
            assert(b =~= seq![b[0]] + b.drop_first());
        }
    } else if a.len() == 0 && b.len() == 0 {
        assert(a =~= b);
    }
}

proof fn lemma_bytes_transitive(a: Seq<u8>, b: Seq<u8>, c: Seq<u8>)
    requires
        bytes_less(a, b),
        bytes_less(b, c),
    ensures
        bytes_less(a, c),
    decreases a.len(),
{
    if a.len() > 0 && b.len() > 0 && c.len() > 0 && a[0] == b[0] && b[0] == c[0] {
        lemma_bytes_transitive(a.drop_first(), b.drop_first(), c.drop_first());
    }
}

proof fn lemma_parts_trichotomy(a: Seq<Seq<u8>>, b: Seq<Seq<u8>>)
    ensures
        parts_less(a, b) || parts_less(b, a) || a == b,
        !(parts_less(a, b) && parts_less(b, a)),
        a == b ==> !parts_less(a, b),
    decreases a.len(),
{
    if a.len() > 0 && b.len() > 0 {
        if a[0] == b[0] {
            lemma_parts_trichotomy(a.drop_first(), b.drop_first());
            if a.drop_first() == b.drop_first() {
                assert(a =~= seq![a[0]] + a.drop_first());
                assert(b =~= seq![b[0]] + b.drop_first());
            }
        } else {
            lemma_bytes_trichotomy(a[0], b[0]);
        }
    } else if a.len() == 0 && b.len() == 0 {
        assert(a =~= b);
    }
}

proof fn lemma_parts_transitive(a: Seq<Seq<u8>>, b: Seq<Seq<u8>>, c: Seq<Seq<u8>>)
    requires
        parts_less(a, b),
        parts_less(b, c),
    ensures
        parts_less(a, c),
    decreases a.len(),
{
    if a.len() > 0 && b.len() > 0 && c.len() > 0 {
        if a[0] == b[0] && b[0] == c[0] {
            lemma_parts_transitive(a.drop_first(), b.drop_first(), c.drop_first());
        } else if a[0] != b[0] && b[0] != c[0] {
            lemma_bytes_trichotomy(a[0], c[0]);
            lemma_bytes_trichotomy(a[0], b[0]);
            if part_rank(a[0]) == part_rank(b[0]) && part_rank(b[0]) == part_rank(c[0]) {
                lemma_bytes_transitive(a[0], b[0], c[0]);
            }
            if a[0] == c[0] {
                assert(part_less(b[0], a[0]) && part_less(a[0], b[0]));
            }
        }
    }
}

/// The order of paths is a strict total order on their components: of two paths with
/// different components exactly one comes first, and what comes first is carried along a
/// chain.
pub proof fn path_order_is_total(a: Seq<u8>, b: Seq<u8>, c: Seq<u8>)
    ensures
        path_less(a, b) || path_less(b, a) || same_path(a, b),
        !(path_less(a, b) && path_less(b, a)),
        !path_less(a, a),
        path_less(a, b) && path_less(b, c) ==> path_less(a, c),
{
    lemma_parts_trichotomy(parts_of(a), parts_of(b));
    lemma_parts_trichotomy(parts_of(a), parts_of(a));
    if path_less(a, b) && path_less(b, c) {
        lemma_parts_transitive(parts_of(a), parts_of(b), parts_of(c));
    }
}

fn less_bytes(a: &[u8], b: &[u8]) -> (less: bool)
    ensures
        less == bytes_less(a@, b@),
{
    let mut i: usize = 0;
    proof {
        assert(a@.skip(0) =~= a@);
        assert(b@.skip(0) =~= b@);
    }
    loop
        invariant
            i <= a@.len(),
            i <= b@.len(),
            bytes_less(a@, b@) == bytes_less(a@.skip(i as int), b@.skip(i as int)),
        decreases a@.len() - i,
    {
        if i >= b.len() {
            return false;
        }
        if i >= a.len() {
            return true;
        }
        proof {
            assert(a@.skip(i as int)[0] == a@[i as int]);
            assert(b@.skip(i as int)[0] == b@[i as int]);
            assert(a@.skip(i as int).drop_first() =~= a@.skip(i + 1));
            assert(b@.skip(i as int).drop_first() =~= b@.skip(i + 1));
        }
        if a[i] != b[i] {
            return a[i] < b[i];
        }
        i += 1;
    }
}

fn rank_of(part: &[u8]) -> (rank: u8)
    ensures
        rank == part_rank(part@),
{
    if part.len() == 1 && part[0] == 47 {
        assert(part@ =~= root_part());
        0
    } else if part.len() == 1 && part[0] == 46 {
        assert(part@ =~= here_part());
        assert(part@[0] != root_part()[0]);
        1
    } else if part.len() == 2 && part[0] == 46 && part[1] == 46 {
        assert(part@ =~= parent_part());
        assert(part@.len() != root_part().len());
        assert(part@.len() != here_part().len());
        2
    } else {
        assert(part@.len() == 1 ==> part@[0] != root_part()[0] && part@[0] != here_part()[0]);
        3
    }
}

fn parts_before(a: &Vec<Vec<u8>>, b: &Vec<Vec<u8>>) -> (less: bool)
    ensures
        less == parts_less(components(a@), components(b@)),
{
    let ghost left_parts = components(a@);
    let ghost right_parts = components(b@);
    let mut i: usize = 0;
    proof {
        assert(left_parts.skip(0) =~= left_parts);
        assert(right_parts.skip(0) =~= right_parts);
    }
    loop
        invariant
            left_parts == components(a@),
            right_parts == components(b@),
            i <= left_parts.len(),
            i <= right_parts.len(),
            parts_less(left_parts, right_parts) == parts_less(
                left_parts.skip(i as int),
                right_parts.skip(i as int),
            ),
        decreases left_parts.len() - i,
    {
        if i >= b.len() {
            return false;
        }
        if i >= a.len() {
            return true;
        }
        proof {
            assert(left_parts.skip(i as int)[0] == a@[i as int]@);
            assert(right_parts.skip(i as int)[0] == b@[i as int]@);
            assert(left_parts.skip(i as int).drop_first() =~= left_parts.skip(i + 1));
            assert(right_parts.skip(i as int).drop_first() =~= right_parts.skip(i + 1));
        }
        let left = a[i].as_slice();
        let right = b[i].as_slice();
        if !same_bytes(left, right) {
            let left_rank: u8 = rank_of(left);
            let right_rank: u8 = rank_of(right);
            if left_rank != right_rank {
                return left_rank < right_rank;
            }
            return less_bytes(left, right);
        }
        i += 1;
    }
}

/// Whether one path comes before another.
pub fn comes_before(a: &FilePath, b: &FilePath) -> (less: bool)
    ensures
        less == path_less(a@, b@),
{
    let left = a.parts();
    let right = b.parts();
    parts_before(&left, &right)
}

fn same_parts(a: &Vec<Vec<u8>>, b: &Vec<Vec<u8>>) -> (same: bool)
    ensures
        same == (components(a@) == components(b@)),
{
    if a.len() != b.len() {
        assert(components(a@).len() != components(b@).len());
        return false;
    }
    let mut i: usize = 0;
    while i < a.len()
        invariant
            i <= a@.len(),
            a@.len() == b@.len(),
            forall|j: int| 0 <= j < i ==> #[trigger] components(a@)[j] == components(b@)[j],
        decreases a@.len() - i,
    {
        if !same_bytes(a[i].as_slice(), b[i].as_slice()) {
            assert(components(a@)[i as int] != components(b@)[i as int]);
            return false;
        }
        assert(components(a@)[i as int] == components(b@)[i as int]);
        i += 1;
    }
    assert(components(a@) =~= components(b@));
    true
}

impl FilePath {
    /// Whether two paths have the same components.
    pub fn same(&self, other: &FilePath) -> (same: bool)
        ensures
            same == same_path(self@, other@),
    {
        let ours = self.parts();
        let theirs = other.parts();
        same_parts(&ours, &theirs)
    }
}

/// Sorts paths into their order. Paths with the same components stay in theirs.
pub fn sort_paths(paths: &mut Vec<FilePath>)
    ensures
        paths_sorted(paths_view(final(paths)@)),
        paths_view(final(paths)@).to_multiset() == paths_view(old(paths)@).to_multiset(),
        final(paths)@.len() == old(paths)@.len(),
{
    let mut sorted: Vec<FilePath> = Vec::new();
    let ghost given = paths_view(paths@);
    proof {
        assert(paths_view(sorted@) + given =~= given);
    }
    while paths.len() > 0
        invariant
            paths_sorted(paths_view(sorted@)),
            (paths_view(sorted@) + paths_view(paths@)).to_multiset() == given.to_multiset(),
            sorted@.len() + paths@.len() == given.len(),
        decreases paths@.len(),
    {
        let ghost rest = paths_view(paths@);
        let ghost before = paths_view(sorted@);
        let path = match paths.pop() {
            Some(p) => p,
            None => { return ; },
        };
        assert(paths_view(paths@) =~= rest.drop_last());
        // Nothing at or after `at` comes before the path.
        let mut at: usize = sorted.len();
        while at > 0 && !comes_before(&sorted[at - 1], &path)
            invariant
                at <= sorted@.len(),
                paths_view(sorted@) == before,
                forall|j: int| at <= j < before.len() ==> !path_less(#[trigger] before[j], path@),
            decreases at,
        {
            at -= 1;
        }
        sorted.insert(at, path);
        proof {
            let now = paths_view(sorted@);
            assert(now =~= before.insert(at as int, path@));
            assert forall|i: int, j: int| 0 <= i < j < now.len() implies !path_less(
                #[trigger] now[j],
                #[trigger] now[i],
            ) by {
                let x = path@;
                if i == at {
                    assert(now[j] == before[j - 1]);
                } else if j == at {
                    assert(now[i] == before[i]);
                    assert(path_less(before[at - 1], x));
                    path_order_is_total(before[at - 1], x, before[i]);
                    if i < at - 1 {
                        assert(!path_less(before[at - 1], before[i]));
                    }
                } else {
                    let bi = if i < at {
                        i
                    } else {
                        i - 1
                    };
                    let bj = if j < at {
                        j
                    } else {
                        j - 1
                    };
                    assert(now[i] == before[bi]);
                    assert(now[j] == before[bj]);
                    assert(!path_less(before[bj], before[bi]));
                }
            }
            broadcast use vstd::seq_lib::group_to_multiset_ensures;

            assert(now.to_multiset() =~= before.to_multiset().insert(path@));
            assert(rest =~= rest.drop_last().push(path@));
            assert((before + rest) =~= (before + rest.drop_last()).push(path@));
            vstd::seq_lib::lemma_multiset_commutative(before, rest.drop_last());
            vstd::seq_lib::lemma_multiset_commutative(now, rest.drop_last());
            assert((now + rest.drop_last()).to_multiset() =~= (before + rest).to_multiset());
        }
    }
    proof {
        assert(paths_view(sorted@) + paths_view(paths@) =~= paths_view(sorted@));
    }
    *paths = sorted;
}

/// The bytes of ASCII text.
pub open spec fn ascii(s: Seq<char>) -> Seq<u8> {
    Seq::new(s.len(), |i: int| s[i] as u8)
}

/// Text whose characters are all ASCII.
pub open spec fn is_ascii_text(s: Seq<char>) -> bool {
    forall|i: int| 0 <= i < s.len() ==> (#[trigger] s[i] as u32) < 128
}

/// The bytes of ASCII text.
pub fn ascii_bytes(s: &str) -> (out: Vec<u8>)
    requires
        is_ascii_text(s@),
    ensures
        out@ == ascii(s@),
{
    let chars = text::chars_of(s);
    let mut out: Vec<u8> = Vec::new();
    let mut i: usize = 0;
    while i < chars.len()
        invariant
            i <= chars.len(),
            chars@ == s@,
            is_ascii_text(s@),
            out@ == ascii(s@.take(i as int)),
        decreases chars.len() - i,
    {
        out.push(chars[i] as u8);
        assert(ascii(s@.take(i + 1)) =~= ascii(s@.take(i as int)).push(s@[i as int] as u8));
        i += 1;
    }
    assert(s@.take(i as int) =~= s@);
    out
}

/// `n` in decimal, as bytes.
pub open spec fn decimal_bytes(n: nat) -> Seq<u8> {
    ascii(text::decimal(n))
}

proof fn lemma_decimal_ascii(n: nat)
    ensures
        is_ascii_text(text::decimal(n)),
        decimal_bytes(n).len() > 0,
        forall|i: int|
            0 <= i < decimal_bytes(n).len() ==> 48 <= #[trigger] decimal_bytes(n)[i] <= 57,
{
    text::decimal_reads_back(n);
    let d = text::decimal(n);
    assert forall|i: int| 0 <= i < d.len() implies (#[trigger] d[i] as u32) < 128 by {
        assert(text::is_digit(d[i]));
    }
    assert forall|i: int| 0 <= i < decimal_bytes(n).len() implies 48 <= #[trigger] decimal_bytes(
        n,
    )[i] <= 57 by {
        assert(text::is_digit(d[i]));
    }
}

proof fn lemma_decimal_bytes_injective(n: nat, m: nat)
    requires
        decimal_bytes(n) == decimal_bytes(m),
    ensures
        n == m,
{
    text::decimal_reads_back(n);
    text::decimal_reads_back(m);
    let a = text::decimal(n);
    let b = text::decimal(m);
    assert(decimal_bytes(n).len() == a.len() && decimal_bytes(m).len() == b.len());
    assert forall|i: int| 0 <= i < a.len() implies a[i] == b[i] by {
        assert(text::is_digit(a[i]) && text::is_digit(b[i]));
        assert(decimal_bytes(n)[i] == a[i] as u8 && decimal_bytes(m)[i] == b[i] as u8);
    }
    assert(a =~= b);
}

/// Where the last dot of a name stands; below zero where there is none.
pub open spec fn last_dot(name: Seq<u8>) -> int
    decreases name.len(),
{
    if name.len() == 0 {
        -1
    } else if name.last() == 46 {
        name.len() - 1
    } else {
        last_dot(name.drop_last())
    }
}

proof fn lemma_last_dot(name: Seq<u8>)
    ensures
        -1 <= last_dot(name) < name.len(),
        last_dot(name) >= 0 ==> name[last_dot(name)] == 46,
        forall|i: int| last_dot(name) < i < name.len() ==> #[trigger] name[i] != 46,
    decreases name.len(),
{
    if name.len() > 0 && name.last() != 46 {
        lemma_last_dot(name.drop_last());
        assert forall|i: int| last_dot(name) < i < name.len() implies #[trigger] name[i] != 46 by {
            if i < name.len() - 1 {
                assert(name[i] == name.drop_last()[i]);
            }
        }
    }
}

proof fn lemma_last_dot_is(name: Seq<u8>, at: int)
    requires
        0 <= at < name.len(),
        name[at] == 46,
        forall|i: int| at < i < name.len() ==> #[trigger] name[i] != 46,
    ensures
        last_dot(name) == at,
{
    lemma_last_dot(name);
    if last_dot(name) > at {
        assert(name[last_dot(name)] != 46);
    }
    if last_dot(name) < at {
        assert(name[at] != 46);
    }
}

/// The name without its extension. A dot at the start starts no extension.
pub open spec fn stem(name: Seq<u8>) -> Seq<u8> {
    if last_dot(name) <= 0 {
        name
    } else {
        name.take(last_dot(name))
    }
}

/// What follows the last dot, unless that dot starts the name.
pub open spec fn extension(name: Seq<u8>) -> Option<Seq<u8>> {
    if last_dot(name) <= 0 {
        None
    } else {
        Some(name.skip(last_dot(name) + 1))
    }
}

fn find_last_dot(name: &[u8]) -> (at: Option<usize>)
    ensures
        match at {
            Some(i) => i == last_dot(name@),
            None => last_dot(name@) == -1,
        },
{
    let mut i: usize = name.len();
    proof {
        assert(name@.take(i as int) =~= name@);
    }
    while i > 0
        invariant
            i <= name@.len(),
            last_dot(name@) == last_dot(name@.take(i as int)),
        decreases i,
    {
        proof {
            assert(name@.take(i as int).last() == name@[i - 1]);
            assert(name@.take(i as int).drop_last() =~= name@.take(i - 1));
        }
        if name[i - 1] == 46 {
            return Some(i - 1);
        }
        i -= 1;
    }
    None
}

/// The name without its extension.
pub fn stem_of(name: &[u8]) -> (out: Vec<u8>)
    ensures
        out@ == stem(name@),
{
    proof {
        lemma_last_dot(name@);
        assert(name@.subrange(0, name@.len() as int) =~= name@);
    }
    match find_last_dot(name) {
        Some(at) => {
            if at == 0 {
                copy_bytes(name)
            } else {
                assert(name@.subrange(0, at as int) =~= name@.take(at as int));
                byte_range(name, 0, at)
            }
        },
        None => copy_bytes(name),
    }
}

/// The extension of a name.
pub fn extension_of(name: &[u8]) -> (out: Option<Vec<u8>>)
    ensures
        match out {
            Some(e) => extension(name@) == Some(e@),
            None => extension(name@) is None,
        },
{
    proof {
        lemma_last_dot(name@);
    }
    match find_last_dot(name) {
        Some(at) => {
            if at == 0 {
                None
            } else {
                assert(name@.subrange(at + 1, name@.len() as int) =~= name@.skip(at + 1));
                let end: usize = name.len();
                assert(at < end);
                Some(byte_range(name, at + 1, end))
            }
        },
        None => None,
    }
}

/// `std::str::from_utf8`: the text that the bytes encode, where they are valid
/// UTF-8, and nothing otherwise.
#[verifier::external_body]
pub(crate) fn utf8_text(bytes: &[u8]) -> (decoded: Option<String>)
    ensures
        decoded is Some <==> vstd::utf8::valid_utf8(bytes@),
        decoded matches Some(s) ==> s@ == vstd::utf8::decode_utf8(bytes@),
{
    std::str::from_utf8(bytes).ok().map(|s| s.to_owned())
}

/// A byte in lower case, if it is an ASCII letter.
pub open spec fn lower_byte(b: u8) -> u8 {
    if 65 <= b <= 90 {
        (b + 32) as u8
    } else {
        b
    }
}

/// Bytes with their ASCII letters in lower case.
pub open spec fn lower_bytes(s: Seq<u8>) -> Seq<u8> {
    Seq::new(s.len(), |i: int| lower_byte(s[i]))
}

/// Bytes with their ASCII letters in lower case.
pub fn to_lower_bytes(bytes: &[u8]) -> (out: Vec<u8>)
    ensures
        out@ == lower_bytes(bytes@),
{
    let mut out: Vec<u8> = Vec::new();
    let mut i: usize = 0;
    while i < bytes.len()
        invariant
            i <= bytes@.len(),
            out@ == lower_bytes(bytes@.take(i as int)),
        decreases bytes@.len() - i,
    {
        let b: u8 = bytes[i];
        let low: u8 = if 65 <= b && b <= 90 {
            b + 32
        } else {
            b
        };
        out.push(low);
        assert(lower_bytes(bytes@.take(i + 1)) =~= lower_bytes(bytes@.take(i as int)).push(low));
        i += 1;
    }
    assert(bytes@.take(i as int) =~= bytes@);
    out
}

/// Names with one of the extensions of the images that are read, in any case.
pub open spec fn is_image_name(name: Seq<u8>) -> bool {
    extension(name) matches Some(e) && (lower_bytes(e) == ascii("jpg"@) || lower_bytes(e) == ascii(
        "jpeg"@,
    ) || lower_bytes(e) == ascii("png"@))
}

/// Names with a JPEG extension, in any case.
pub open spec fn is_jpeg_name(name: Seq<u8>) -> bool {
    extension(name) matches Some(e) && (lower_bytes(e) == ascii("jpg"@) || lower_bytes(e) == ascii(
        "jpeg"@,
    ))
}

fn extension_is(name: &[u8], wanted: &str) -> (is: bool)
    requires
        is_ascii_text(wanted@),
    ensures
        is == (extension(name@) matches Some(e) && lower_bytes(e) == ascii(wanted@)),
{
    match extension_of(name) {
        Some(e) => {
            let low = to_lower_bytes(e.as_slice());
            let wanted = ascii_bytes(wanted);
            same_bytes(low.as_slice(), wanted.as_slice())
        },
        None => false,
    }
}

/// Whether a name has the extension of an image that is read.
pub fn names_image(name: &[u8]) -> (is: bool)
    ensures
        is == is_image_name(name@),
{
    proof {
        reveal_strlit("jpg");
        reveal_strlit("jpeg");
        reveal_strlit("png");
    }
    extension_is(name, "jpg") || extension_is(name, "jpeg") || extension_is(name, "png")
}

/// Whether a name has a JPEG extension.
pub fn names_jpeg(name: &[u8]) -> (is: bool)
    ensures
        is == is_jpeg_name(name@),
{
    proof {
        reveal_strlit("jpg");
        reveal_strlit("jpeg");
    }
    extension_is(name, "jpg") || extension_is(name, "jpeg")
}

/// The name of the file that a path ends in.
pub open spec fn file_name(path: Seq<u8>) -> Option<Seq<u8>> {
    let parts = parts_of(path);
    if parts.len() > 0 && is_named(parts.last()) {
        Some(parts.last())
    } else {
        None
    }
}

/// The file name of a path as text, where it has one that is valid UTF-8.
pub open spec fn file_name_text(path: Seq<u8>) -> Option<Seq<char>> {
    match file_name(path) {
        Some(name) => if vstd::utf8::valid_utf8(name) {
            Some(vstd::utf8::decode_utf8(name))
        } else {
            None
        },
        None => None,
    }
}

/// The stem of a path's file name as text, where that is valid UTF-8.
pub open spec fn file_stem_text(path: Seq<u8>) -> Option<Seq<char>> {
    match file_name(path) {
        Some(name) => if vstd::utf8::valid_utf8(stem(name)) {
            Some(vstd::utf8::decode_utf8(stem(name)))
        } else {
            None
        },
        None => None,
    }
}

/// The extension of a path's file name as text, where that is valid UTF-8.
pub open spec fn file_extension_text(path: Seq<u8>) -> Option<Seq<char>> {
    match file_name(path) {
        Some(name) => match extension(name) {
            Some(e) => if vstd::utf8::valid_utf8(e) {
                Some(vstd::utf8::decode_utf8(e))
            } else {
                None
            },
            None => None,
        },
        None => None,
    }
}

impl FilePath {
    /// The name of the file that the path ends in.
    pub fn file_name(&self) -> (name: Option<Vec<u8>>)
        ensures
            match name {
                Some(n) => file_name(self@) == Some(n@),
                None => file_name(self@) is None,
            },
    {
        let parts = self.parts();
        if parts.len() == 0 {
            return None;
        }
        let last = parts[parts.len() - 1].as_slice();
        assert(last@ == parts_of(self@).last());
        if rank_of(last) == 3 {
            Some(copy_bytes(last))
        } else {
            None
        }
    }

    /// The file name as text.
    pub fn file_name_text(&self) -> (name: Option<String>)
        ensures
            match name {
                Some(n) => file_name_text(self@) == Some(n@),
                None => file_name_text(self@) is None,
            },
    {
        match self.file_name() {
            Some(name) => utf8_text(name.as_slice()),
            None => None,
        }
    }

    /// The file name's stem as text.
    pub fn file_stem_text(&self) -> (name: Option<String>)
        ensures
            match name {
                Some(n) => file_stem_text(self@) == Some(n@),
                None => file_stem_text(self@) is None,
            },
    {
        match self.file_name() {
            Some(name) => {
                let stem = stem_of(name.as_slice());
                utf8_text(stem.as_slice())
            },
            None => None,
        }
    }

    /// The file name's extension as text.
    pub fn file_extension_text(&self) -> (name: Option<String>)
        ensures
            match name {
                Some(n) => file_extension_text(self@) == Some(n@),
                None => file_extension_text(self@) is None,
            },
    {
        match self.file_name() {
            Some(name) => match extension_of(name.as_slice()) {
                Some(extension) => utf8_text(extension.as_slice()),
                None => None,
            },
            None => None,
        }
    }
}

/// The name that a file is given in its destination folder when `attempt`
/// names before it were taken: its own at first, then its stem with a counter.
/// A stem that is not text is replaced, an extension that is not text dropped.
pub open spec fn safe_name(name: Seq<u8>, attempt: nat) -> Seq<u8> {
    if attempt == 0 {
        name
    } else {
        let base = if vstd::utf8::valid_utf8(stem(name)) {
            stem(name)
        } else {
            ascii("image"@)
        };
        let counted = base + seq![95u8] + decimal_bytes(attempt);
        match extension(name) {
            Some(e) => if vstd::utf8::valid_utf8(e) {
                counted + seq![46u8] + e
            } else {
                counted
            },
            None => counted,
        }
    }
}

/// Appends bytes.
pub fn append_bytes(out: &mut Vec<u8>, more: &[u8])
    ensures
        final(out)@ == old(out)@ + more@,
{
    out.extend_from_slice(more);
    assert(out@ =~= old(out)@ + more@);
}

/// The name that a file is given in its destination folder when `attempt`
/// names before it were taken.
pub fn conflict_safe_name(name: &[u8], attempt: usize) -> (safe: Vec<u8>)
    ensures
        safe@ == safe_name(name@, attempt as nat),
{
    if attempt == 0 {
        return copy_bytes(name);
    }
    let own = stem_of(name);
    let mut safe = if utf8_text(own.as_slice()).is_some() {
        own
    } else {
        proof {
            reveal_strlit("image");
        }
        ascii_bytes("image")
    };
    let ghost base = safe@;
    safe.push(95);
    let digits = text::decimal_text(attempt as u64);
    proof {
        lemma_decimal_ascii(attempt as nat);
    }
    let digits = ascii_bytes(digits.as_str());
    append_bytes(&mut safe, digits.as_slice());
    assert(safe@ =~= base + seq![95u8] + decimal_bytes(attempt as nat));
    match extension_of(name) {
        Some(extension) => {
            if utf8_text(extension.as_slice()).is_some() {
                let ghost counted = safe@;
                safe.push(46);
                append_bytes(&mut safe, extension.as_slice());
                assert(safe@ =~= counted + seq![46u8] + extension@);
            }
        },
        None => {},
    }
    safe
}

/// Bytes that are all ASCII.
pub open spec fn is_ascii_bytes(s: Seq<u8>) -> bool {
    forall|i: int| 0 <= i < s.len() ==> #[trigger] s[i] < 128
}

proof fn lemma_ascii_is_utf8(s: Seq<u8>)
    requires
        is_ascii_bytes(s),
    ensures
        vstd::utf8::valid_utf8(s),
{
    let chars = Seq::new(s.len(), |i: int| s[i] as char);
    assert(vstd::utf8::is_ascii_chars(chars));
    vstd::utf8::is_ascii_chars_encode_utf8(chars);
    vstd::utf8::encode_utf8_valid_utf8(chars);
    assert(vstd::utf8::encode_utf8(chars) =~= s) by {
        assert forall|i: int| 0 <= i < s.len() implies vstd::utf8::encode_utf8(chars)[i] == s[i] by {
            assert(chars[i] as u8 == s[i]);
        }
    }
}

/// A name is valid UTF-8 just when what stands on both sides of its last dot is.
proof fn lemma_utf8_at_dot(name: Seq<u8>)
    requires
        last_dot(name) > 0,
    ensures
        vstd::utf8::valid_utf8(name) ==> vstd::utf8::valid_utf8(stem(name))
            && vstd::utf8::valid_utf8(name.skip(last_dot(name) + 1)),
{
    lemma_last_dot(name);
    let at = last_dot(name);
    if vstd::utf8::valid_utf8(name) {
        vstd::utf8::is_char_boundary_iff_not_is_continuation_byte(name, at);
        vstd::utf8::valid_utf8_split(name, at);
        assert(name.subrange(0, at) =~= name.take(at));
        let rest = name.subrange(at, name.len() as int);
        assert(vstd::utf8::valid_utf8(rest));
        assert(rest[0] == 46);
        assert(vstd::utf8::length_of_first_scalar(rest) == 1);
        assert(vstd::utf8::pop_first_scalar(rest) =~= name.skip(at + 1));
    }
}

proof fn lemma_safe_name_is_utf8(name: Seq<u8>, attempt: nat)
    requires
        attempt > 0,
    ensures
        vstd::utf8::valid_utf8(safe_name(name, attempt)),
{
    reveal_strlit("image");
    lemma_decimal_ascii(attempt);
    let base = if vstd::utf8::valid_utf8(stem(name)) {
        stem(name)
    } else {
        ascii("image"@)
    };
    let image = ascii("image"@);
    assert(image =~= seq![105u8, 109u8, 97u8, 103u8, 101u8]);
    lemma_ascii_is_utf8(image);
    lemma_ascii_is_utf8(seq![95u8]);
    lemma_ascii_is_utf8(seq![46u8]);
    lemma_ascii_is_utf8(decimal_bytes(attempt));
    vstd::utf8::valid_utf8_concat(base, seq![95u8]);
    vstd::utf8::valid_utf8_concat(base + seq![95u8], decimal_bytes(attempt));
    let counted = base + seq![95u8] + decimal_bytes(attempt);
    vstd::utf8::valid_utf8_concat(counted, seq![46u8]);
    if let Some(e) = extension(name) {
        if vstd::utf8::valid_utf8(e) {
            vstd::utf8::valid_utf8_concat(counted + seq![46u8], e);
        }
    }
}

/// No two attempts try the same name: a file whose name is taken is given
/// another one each time.
pub proof fn safe_names_differ(name: Seq<u8>, i: nat, j: nat)
    requires
        i != j,
    ensures
        safe_name(name, i) != safe_name(name, j),
    decreases i,
{
    if i > j {
        safe_names_differ(name, j, i);
    } else if i == 0 {
        lemma_last_dot(name);
        lemma_decimal_ascii(j);
        lemma_safe_name_is_utf8(name, j);
        if last_dot(name) > 0 {
            lemma_utf8_at_dot(name);
            let e = name.skip(last_dot(name) + 1);
            if vstd::utf8::valid_utf8(stem(name)) && vstd::utf8::valid_utf8(e) {
                assert(safe_name(name, j).len() > name.len());
            }
        } else if vstd::utf8::valid_utf8(name) {
            assert(safe_name(name, j).len() > name.len());
        }
    } else {
        let base = if vstd::utf8::valid_utf8(stem(name)) {
            stem(name)
        } else {
            ascii("image"@)
        };
        let start = (base + seq![95u8]).len() as int;
        let a = safe_name(name, i);
        let b = safe_name(name, j);
        if a == b {
            let tail: nat = match extension(name) {
                Some(e) => if vstd::utf8::valid_utf8(e) {
                    (e.len() + 1) as nat
                } else {
                    0
                },
                None => 0,
            };
            assert(a.len() == start + decimal_bytes(i).len() + tail);
            assert(b.len() == start + decimal_bytes(j).len() + tail);
            assert(a.subrange(start, a.len() - tail) =~= decimal_bytes(i));
            assert(b.subrange(start, b.len() - tail) =~= decimal_bytes(j));
            lemma_decimal_bytes_injective(i, j);
        }
    }
}

/// A name that had to be changed keeps its extension, where that is text, and
/// gets none where it had none. So what was named as an image stays one.
pub proof fn safe_name_keeps_extension(name: Seq<u8>, attempt: nat)
    ensures
        extension(name) is None ==> extension(safe_name(name, attempt)) is None,
        extension(name) matches Some(e) && vstd::utf8::valid_utf8(e) ==> extension(
            safe_name(name, attempt),
        ) == extension(name),
        is_image_name(name) ==> is_image_name(safe_name(name, attempt)),
{
    reveal_strlit("image");
    reveal_strlit("jpg");
    reveal_strlit("jpeg");
    reveal_strlit("png");
    lemma_last_dot(name);
    if attempt > 0 {
        lemma_decimal_ascii(attempt);
        let base = if vstd::utf8::valid_utf8(stem(name)) {
            stem(name)
        } else {
            ascii("image"@)
        };
        let digits = decimal_bytes(attempt);
        let counted = base + seq![95u8] + digits;
        let safe = safe_name(name, attempt);
        if let Some(e) = extension(name) {
            if vstd::utf8::valid_utf8(e) {
                let at = counted.len() as int;
                assert(safe[at] == 46);
                assert forall|i: int| at < i < safe.len() implies #[trigger] safe[i] != 46 by {
                    assert(safe[i] == e[i - at - 1]);
                    assert(e[i - at - 1] == name[last_dot(name) + 1 + (i - at - 1)]);
                }
                lemma_last_dot_is(safe, at);
                assert(safe.skip(at + 1) =~= e);
            }
            if is_image_name(name) {
                assert(ascii("jpg"@) =~= seq![106u8, 112u8, 103u8]);
                assert(ascii("jpeg"@) =~= seq![106u8, 112u8, 101u8, 103u8]);
                assert(ascii("png"@) =~= seq![112u8, 110u8, 103u8]);
                assert(is_ascii_bytes(lower_bytes(e)));
                assert(is_ascii_bytes(e)) by {
                    assert forall|i: int| 0 <= i < e.len() implies #[trigger] e[i] < 128 by {
                        assert(lower_bytes(e)[i] == lower_byte(e[i]));
                        assert(lower_bytes(e)[i] < 128);
                    }
                }
                lemma_ascii_is_utf8(e);
            }
        } else {
            assert(base.len() > 0 || last_dot(safe) <= 0) by {
                lemma_last_dot(safe);
            }
            lemma_last_dot(safe);
            if last_dot(safe) > 0 {
                let at = last_dot(safe);
                assert(safe[at] == 46);
                if at < base.len() {
                    assert(base[at] == 46);
                    if vstd::utf8::valid_utf8(stem(name)) {
                        assert(name[at] == 46);
                    } else {
                        assert(ascii("image"@)[at] != 46);
                    }
                } else if at > base.len() {
                    assert(safe[at] == digits[at - base.len() - 1]);
                }
            }
        }
    }
}

/// A name that is no path of its own leads to none.
pub proof fn safe_names_are_relative(name: Seq<u8>, attempt: nat)
    requires
        name.len() == 0 || name[0] != 47,
    ensures
        safe_name(name, attempt).len() == 0 || safe_name(name, attempt)[0] != 47,
{
    lemma_last_dot(name);
    reveal_strlit("image");
    assert(ascii("image"@).len() == 5);
    assert(ascii("image"@)[0] == 105);
}

/// What follows the last slash.
pub open spec fn open_part(s: Seq<u8>) -> Seq<u8>
    decreases s.len(),
{
    if s.len() == 0 || s.last() == 47 {
        Seq::empty()
    } else {
        open_part(s.drop_last()).push(s.last())
    }
}

/// A component that says nothing: an empty one, or a lone dot.
pub open spec fn is_void(part: Seq<u8>) -> bool {
    part.len() == 0 || part == here_part()
}

/// The components before the last slash.
pub open spec fn closed_parts(s: Seq<u8>) -> Seq<Seq<u8>>
    decreases s.len(),
{
    if s.len() == 0 {
        Seq::empty()
    } else if s.last() == 47 {
        if is_void(open_part(s.drop_last())) {
            closed_parts(s.drop_last())
        } else {
            closed_parts(s.drop_last()).push(open_part(s.drop_last()))
        }
    } else {
        closed_parts(s.drop_last())
    }
}

/// The components that a piece of a path names, split at its slashes.
pub open spec fn split_parts(s: Seq<u8>) -> Seq<Seq<u8>> {
    if is_void(open_part(s)) {
        closed_parts(s)
    } else {
        closed_parts(s).push(open_part(s))
    }
}

/// The components of a whole path: the root where it starts with a slash, a
/// lone dot where it starts with one, and what its slashes separate.
pub open spec fn parts_of(s: Seq<u8>) -> Seq<Seq<u8>> {
    if s.len() > 0 && s[0] == 47 {
        seq![root_part()] + split_parts(s)
    } else if s.len() > 0 && s[0] == 46 && (s.len() == 1 || s[1] == 47) {
        seq![here_part()] + split_parts(s)
    } else {
        split_parts(s)
    }
}

/// `base` with `piece` below it, and a slash between them unless `base` ends in one. A
/// piece that starts with a slash replaces the base.
pub open spec fn joined(base: Seq<u8>, piece: Seq<u8>) -> Seq<u8> {
    if base.len() == 0 || (piece.len() > 0 && piece[0] == 47) {
        piece
    } else if base.last() == 47 {
        base + piece
    } else {
        base.push(47u8) + piece
    }
}

fn is_void_part(part: &[u8]) -> (void: bool)
    ensures
        void == is_void(part@),
{
    if part.len() == 0 {
        return true;
    }
    if part.len() == 1 && part[0] == 46 {
        assert(part@ =~= here_part());
        return true;
    }
    assert(part@.len() == 1 ==> part@[0] != here_part()[0]);
    false
}

fn split_into(parts: &mut Vec<Vec<u8>>, piece: &[u8])
    ensures
        components(final(parts)@) == components(old(parts)@) + split_parts(
            piece@,
        ),
{
    let ghost before = components(parts@);
    let mut open: Vec<u8> = Vec::new();
    let mut i: usize = 0;
    proof {
        assert(piece@.take(0) =~= Seq::<u8>::empty());
        assert(components(parts@) =~= before + closed_parts(piece@.take(0)));
    }
    while i < piece.len()
        invariant
            i <= piece@.len(),
            open@ == open_part(piece@.take(i as int)),
            components(parts@) == before + closed_parts(piece@.take(i as int)),
        decreases piece@.len() - i,
    {
        let b: u8 = piece[i];
        proof {
            assert(piece@.take(i + 1).drop_last() =~= piece@.take(i as int));
            assert(piece@.take(i + 1).last() == b);
        }
        let ghost so_far = components(parts@);
        if b == 47 {
            if !is_void_part(open.as_slice()) {
                let ghost part = open@;
                parts.push(open);
                assert(components(parts@) =~= so_far.push(part));
                assert(so_far.push(part) =~= before + closed_parts(piece@.take(i as int)).push(part));
            }
            open = Vec::new();
        } else {
            open.push(b);
        }
        i += 1;
    }
    assert(piece@.take(i as int) =~= piece@);
    if !is_void_part(open.as_slice()) {
        let ghost so_far = components(parts@);
        let ghost part = open@;
        parts.push(open);
        assert(components(parts@) =~= so_far.push(part));
        assert(so_far.push(part) =~= before + closed_parts(piece@).push(part));
    }
}

impl FilePath {
    /// The path that some bytes write.
    pub fn parse(bytes: &[u8]) -> (path: FilePath)
        ensures
            path@ == bytes@,
    {
        FilePath { written: copy_bytes(bytes) }
    }

    /// The components of the path.
    pub fn parts(&self) -> (parts: Vec<Vec<u8>>)
        ensures
            components(parts@) == parts_of(self@),
    {
        split_path(self.written.as_slice())
    }

    /// This path with a piece below it.
    pub fn join(&self, piece: &[u8]) -> (path: FilePath)
        ensures
            path@ == joined(self@, piece@),
    {
        let len: usize = self.written.len();
        if len == 0 || (piece.len() > 0 && piece[0] == 47) {
            return FilePath::parse(piece);
        }
        let mut path = self.clone();
        if self.written[len - 1] != 47 {
            path.written.push(47);
        }
        append_bytes(&mut path.written, piece);
        path
    }

    /// This path with a piece of text below it.
    pub fn join_text(&self, piece: &str) -> (path: FilePath)
        ensures
            path@ == joined(self@, vstd::utf8::encode_utf8(piece@)),
    {
        self.join(piece.as_bytes())
    }
}

fn split_path(bytes: &[u8]) -> (parts: Vec<Vec<u8>>)
    ensures
        components(parts@) == parts_of(bytes@),
{
    let mut parts: Vec<Vec<u8>> = Vec::new();
    assert(components(parts@) =~= Seq::<Seq<u8>>::empty());
    if bytes.len() > 0 && bytes[0] == 47 {
        let mut root: Vec<u8> = Vec::new();
        root.push(47);
        assert(root@ =~= root_part());
        parts.push(root);
        assert(components(parts@) =~= seq![root_part()]);
    } else if bytes.len() > 0 && bytes[0] == 46 && (bytes.len() == 1 || bytes[1] == 47) {
        let mut here: Vec<u8> = Vec::new();
        here.push(46);
        assert(here@ =~= here_part());
        parts.push(here);
        assert(components(parts@) =~= seq![here_part()]);
    }
    let ghost head = components(parts@);
    split_into(&mut parts, bytes);
    assert(head + split_parts(bytes@) =~= parts_of(bytes@));
    parts
}

/// Different names in one folder are different paths, unless one of them is a path of its
/// own.
pub proof fn joined_paths_differ(base: Seq<u8>, a: Seq<u8>, b: Seq<u8>)
    requires
        a != b,
        a.len() == 0 || a[0] != 47,
        b.len() == 0 || b[0] != 47,
    ensures
        joined(base, a) != joined(base, b),
{
    let whole = joined(base, a);
    let other = joined(base, b);
    let start: int = if base.len() == 0 || base.last() == 47 {
        base.len() as int
    } else {
        base.len() as int + 1
    };
    assert(whole.skip(start) =~= a);
    assert(other.skip(start) =~= b);
}

proof fn lemma_split_at_slash(before: Seq<u8>, after: Seq<u8>)
    ensures
        open_part(before.push(47u8) + after) == open_part(after),
        closed_parts(before.push(47u8) + after) == split_parts(before) + closed_parts(after),
    decreases after.len(),
{
    let whole = before.push(47u8) + after;
    if after.len() == 0 {
        assert(whole =~= before.push(47u8));
        assert(whole.drop_last() =~= before);
        assert(closed_parts(whole) =~= split_parts(before) + closed_parts(after));
    } else {
        let rest = after.drop_last();
        lemma_split_at_slash(before, rest);
        assert(whole.drop_last() =~= before.push(47u8) + rest);
        assert(whole.last() == after.last());
        assert(closed_parts(whole) =~= split_parts(before) + closed_parts(after));
    }
}

/// The components of a path with a piece below it are those of the path and then those
/// of the piece, however the path is written.
pub proof fn components_are_joined(base: Seq<u8>, piece: Seq<u8>)
    requires
        base.len() > 0,
        piece.len() == 0 || piece[0] != 47,
    ensures
        parts_of(joined(base, piece)) == parts_of(base) + split_parts(piece),
{
    let whole = joined(base, piece);
    if base.last() == 47 {
        let before = base.drop_last();
        assert(base =~= before.push(47u8));
        lemma_split_at_slash(before, piece);
        lemma_split_at_slash(before, Seq::empty());
        assert(before.push(47u8) + Seq::<u8>::empty() =~= base);
        assert(whole =~= before.push(47u8) + piece);
        assert(split_parts(base) =~= split_parts(before));
    } else {
        lemma_split_at_slash(base, piece);
        assert(whole =~= base.push(47u8) + piece);
    }
    assert(split_parts(whole) =~= split_parts(base) + split_parts(piece));
    assert(whole[0] == base[0]);
    if base.len() > 1 {
        assert(whole[1] == base[1]);
    }
    assert(parts_of(whole) =~= parts_of(base) + split_parts(piece));
}

/// The text that `String::from_utf8_lossy` makes of bytes.
pub uninterp spec fn lossy_text(bytes: Seq<u8>) -> Seq<char>;

/// `String::from_utf8_lossy`: the text that the bytes encode where they are valid
/// UTF-8; otherwise the named text, which has a replacement character in the
/// place of what is not valid.
#[verifier::external_body]
pub(crate) fn decode_lossy(bytes: &[u8]) -> (decoded: String)
    ensures
        decoded@ == lossy_text(bytes@),
        vstd::utf8::valid_utf8(bytes@) ==> decoded@ == vstd::utf8::decode_utf8(bytes@),
{
    String::from_utf8_lossy(bytes).into_owned()
}

/// A path as it is shown.
pub open spec fn shown(path: Seq<u8>) -> Seq<char> {
    lossy_text(path)
}

impl FilePath {
    /// The bytes that write the path.
    pub fn to_bytes(&self) -> (bytes: Vec<u8>)
        ensures
            bytes@ == self@,
    {
        copy_bytes(self.written.as_slice())
    }

    /// The path as it is shown.
    pub fn display_text(&self) -> (s: String)
        ensures
            s@ == shown(self@),
            vstd::utf8::valid_utf8(self@) ==> s@ == vstd::utf8::decode_utf8(self@),
    {
        decode_lossy(self.written.as_slice())
    }
}

/// The shortest beginning of a path, of `n` bytes or more, that has some components.
pub open spec fn head_with(path: Seq<u8>, parts: Seq<Seq<u8>>, n: int) -> Seq<u8>
    decreases path.len() - n,
{
    if n >= path.len() || parts_of(path.take(n)) == parts {
        path.take(n)
    } else {
        head_with(path, parts, n + 1)
    }
}

/// The path without its last component and what stands before that; the root has no
/// parent.
pub open spec fn parent(path: Seq<u8>) -> Option<Seq<u8>> {
    let parts = parts_of(path);
    if parts.len() > 0 && parts.last() != root_part() {
        Some(head_with(path, parts.drop_last(), 0))
    } else {
        None
    }
}

impl FilePath {
    /// The path without its last component.
    pub fn parent(&self) -> (path: Option<FilePath>)
        ensures
            optional_view(path) == parent(self@),
    {
        let mut parts = self.parts();
        if parts.len() == 0 {
            return None;
        }
        let last: usize = parts.len() - 1;
        assert(parts_of(self@).last() == parts@[last as int]@);
        if rank_of(parts[last].as_slice()) == 0 {
            return None;
        }
        let gone = parts.pop();
        assert(components(parts@) =~= parts_of(self@).drop_last());
        let len: usize = self.written.len();
        let mut n: usize = 0;
        while n < len
            invariant_except_break
                n <= len,
                len == self@.len(),
                components(parts@) == parts_of(self@).drop_last(),
                head_with(self@, components(parts@), 0) == head_with(
                    self@,
                    components(parts@),
                    n as int,
                ),
            ensures
                n <= len,
                len == self@.len(),
                head_with(self@, components(parts@), 0) == self@.take(n as int),
            decreases len - n,
        {
            let head = byte_range(self.written.as_slice(), 0, n);
            assert(head@ =~= self@.take(n as int));
            let found = split_path(head.as_slice());
            if same_parts(&found, &parts) {
                break ;
            }
            n += 1;
        }
        let head = byte_range(self.written.as_slice(), 0, n);
        assert(head@ =~= self@.take(n as int));
        Some(FilePath { written: head })
    }
}

/// A name is its stem, a dot and its extension, split at the last dot; a dot that only starts
/// the name splits nothing.
pub proof fn names_split_at_the_last_dot(base: Seq<u8>, tail: Seq<u8>)
    requires
        !tail.contains(46u8),
    ensures
        base.len() > 0 ==> stem(base + seq![46u8] + tail) == base && extension(
            base + seq![46u8] + tail,
        ) == Some(tail),
        stem(tail) == tail && extension(tail) is None,
        stem(seq![46u8] + tail) == seq![46u8] + tail && extension(seq![46u8] + tail) is None,
{
    let name = base + seq![46u8] + tail;
    let at = base.len() as int;
    assert(name[at] == 46);
    assert forall|i: int| at < i < name.len() implies #[trigger] name[i] != 46 by {
        assert(name[i] == tail[i - at - 1]);
        assert(tail.contains(tail[i - at - 1]));
    }
    lemma_last_dot_is(name, at);
    assert(name.take(at) =~= base);
    assert(name.skip(at + 1) =~= tail);
    lemma_last_dot(tail);
    if last_dot(tail) >= 0 {
        assert(tail.contains(tail[last_dot(tail)]));
    }
    let hidden = seq![46u8] + tail;
    lemma_last_dot(hidden);
    if last_dot(hidden) > 0 {
        assert(tail.contains(tail[last_dot(hidden) - 1]));
    }
}

/// A file is an image by its extension, `jpg`, `jpeg` or `png`, and a JPEG file by one of the
/// first two. Capital letters do not matter.
pub proof fn images_are_told_by_their_extension(base: Seq<u8>, tail: Seq<u8>)
    requires
        base.len() > 0,
        !tail.contains(46u8),
    ensures
        ({
            let name = base + seq![46u8] + tail;
            let low = lower_bytes(tail);
            let jpeg = low == seq![106u8, 112u8, 103u8] || low == seq![106u8, 112u8, 101u8, 103u8];
            &&& is_jpeg_name(name) <==> jpeg
            &&& is_image_name(name) <==> jpeg || low == seq![112u8, 110u8, 103u8]
        }),
        !is_image_name(tail),
        !is_image_name(seq![46u8] + tail),
        !is_jpeg_name(tail),
        !is_jpeg_name(seq![46u8] + tail),
{
    reveal_strlit("jpg");
    reveal_strlit("jpeg");
    reveal_strlit("png");
    assert(ascii("jpg"@) =~= seq![106u8, 112u8, 103u8]);
    assert(ascii("jpeg"@) =~= seq![106u8, 112u8, 101u8, 103u8]);
    assert(ascii("png"@) =~= seq![112u8, 110u8, 103u8]);
    names_split_at_the_last_dot(base, tail);
}

/// Only the bytes of capital letters change, each to that of the small letter.
pub proof fn capital_bytes_are_lowered(s: Seq<u8>, i: int)
    requires
        0 <= i < s.len(),
    ensures
        lower_bytes(s).len() == s.len(),
        65 <= s[i] <= 90 ==> lower_bytes(s)[i] == s[i] + 32,
        s[i] < 65 || s[i] > 90 ==> lower_bytes(s)[i] == s[i],
{
}

/// A file whose name is taken gets a count before its extension: `name_1.jpg`, `name_2.jpg`
/// and so on. The first attempt is the name itself.
pub proof fn copies_are_counted_before_the_extension(base: Seq<u8>, tail: Seq<u8>, attempt: nat)
    requires
        !tail.contains(46u8),
        vstd::utf8::valid_utf8(base),
        vstd::utf8::valid_utf8(tail),
    ensures
        safe_name(base + seq![46u8] + tail, 0) == base + seq![46u8] + tail,
        base.len() > 0 && attempt > 0 ==> safe_name(base + seq![46u8] + tail, attempt) == base
            + seq![95u8] + decimal_bytes(attempt) + seq![46u8] + tail,
        attempt > 0 ==> safe_name(tail, attempt) == tail + seq![95u8] + decimal_bytes(attempt),
{
    names_split_at_the_last_dot(base, tail);
}

/// Where only what stands before the extension, or only the extension, is no text, `image`
/// stands for the one, and the other is left out.
pub proof fn what_is_no_text_is_replaced(base: Seq<u8>, tail: Seq<u8>, attempt: nat)
    requires
        base.len() > 0,
        attempt > 0,
        !tail.contains(46u8),
    ensures
        !vstd::utf8::valid_utf8(base) && vstd::utf8::valid_utf8(tail) ==> safe_name(
            base + seq![46u8] + tail,
            attempt,
        ) == seq![105u8, 109u8, 97u8, 103u8, 101u8, 95u8] + decimal_bytes(attempt) + seq![46u8]
            + tail,
        vstd::utf8::valid_utf8(base) && !vstd::utf8::valid_utf8(tail) ==> safe_name(
            base + seq![46u8] + tail,
            attempt,
        ) == base + seq![95u8] + decimal_bytes(attempt),
{
    names_split_at_the_last_dot(base, tail);
    reveal_strlit("image");
    let image = ascii("image"@) + seq![95u8];
    assert(image =~= seq![105u8, 109u8, 97u8, 103u8, 101u8, 95u8]);
}

/// The bytes of a number are the ASCII codes of its digits.
pub proof fn numbers_are_written_in_ascii(n: nat, i: int)
    requires
        0 <= i < text::decimal(n).len(),
    ensures
        decimal_bytes(n).len() == text::decimal(n).len(),
        decimal_bytes(n)[i] as int == text::decimal(n)[i] as int,
{
    text::decimal_reads_back(n);
    assert(text::is_digit(text::decimal(n)[i]));
}

proof fn lemma_simple_name(name: Seq<u8>)
    requires
        !name.contains(47u8),
    ensures
        open_part(name) == name,
        closed_parts(name).len() == 0,
    decreases name.len(),
{
    if name.len() > 0 {
        let rest = name.drop_last();
        assert(name.contains(name.last()));
        assert(!rest.contains(47u8)) by {
            if rest.contains(47u8) {
                let k = choose|k: int| 0 <= k < rest.len() && rest[k] == 47u8;
                assert(name[k] == 47u8);
            }
        }
        lemma_simple_name(rest);
        assert(rest.push(name.last()) =~= name);
    } else {
        assert(open_part(name) =~= name);
    }
}

/// A file in a folder has its own name, whatever the folder, and its folder is the folder.
pub proof fn files_are_found_in_their_folders(folder: Seq<u8>, name: Seq<u8>)
    requires
        folder.len() > 0,
        name.len() > 0,
        !name.contains(47u8),
        name != seq![46u8],
        name != seq![46u8, 46u8],
    ensures
        file_name(joined(folder, name)) == Some(name),
        parent(joined(folder, name)) matches Some(found) && same_path(found, folder)
            && found.len() <= folder.len() && found == folder.take(found.len() as int),
{
    assert(name.contains(name[0]));
    lemma_simple_name(name);
    components_are_joined(folder, name);
    let whole = joined(folder, name);
    assert(!is_void(name));
    assert(split_parts(name) =~= seq![name]);
    let parts = parts_of(whole);
    assert(parts =~= parts_of(folder).push(name));
    assert(parts.last() == name);
    assert(root_part()[0] == 47);
    assert(name != root_part()) by {
        if name == root_part() {
            assert(name[0] == 47u8);
        }
    }
    assert(parts.drop_last() =~= parts_of(folder));
    assert(whole.take(folder.len() as int) =~= folder);
    lemma_head_found(whole, parts_of(folder), 0, folder.len() as int);
    let found = head_with(whole, parts_of(folder), 0);
    assert(found =~= folder.take(found.len() as int));
}

proof fn lemma_head_found(path: Seq<u8>, parts: Seq<Seq<u8>>, n: int, at: int)
    requires
        0 <= n <= at <= path.len(),
        parts_of(path.take(at)) == parts,
    ensures
        head_with(path, parts, n).len() <= at,
        head_with(path, parts, n) == path.take(head_with(path, parts, n).len() as int),
        parts_of(head_with(path, parts, n)) == parts,
    decreases at - n,
{
    if n < at && parts_of(path.take(n)) != parts {
        lemma_head_found(path, parts, n + 1, at);
    }
}

/// A piece stands below a path with one slash between them, and the path before it as it was;
/// a piece that is a path of its own stands alone, and so does one below nothing.
pub proof fn pieces_are_joined_by_a_slash(base: Seq<u8>, piece: Seq<u8>)
    ensures
        piece.len() > 0 && piece[0] == 47 ==> joined(base, piece) == piece,
        base.len() == 0 ==> joined(base, piece) == piece,
        base.len() > 0 && base.last() == 47 && (piece.len() == 0 || piece[0] != 47) ==> joined(
            base,
            piece,
        ) == base + piece,
        base.len() > 0 && base.last() != 47 && (piece.len() == 0 || piece[0] != 47) ==> joined(
            base,
            piece,
        ) == base + seq![47u8] + piece,
{
    assert(base.push(47u8) + piece =~= base + seq![47u8] + piece);
}

/// Of two byte strings the one with the smaller byte where they first differ comes first,
/// and one that the other only continues.
pub proof fn bytes_compare_where_they_differ(start: Seq<u8>, a: Seq<u8>, b: Seq<u8>)
    ensures
        a.len() > 0 && b.len() > 0 && a[0] < b[0] ==> bytes_less(start + a, start + b)
            && !bytes_less(start + b, start + a),
        a.len() > 0 ==> bytes_less(start, start + a) && !bytes_less(start + a, start),
        !bytes_less(start, start),
    decreases start.len(),
{
    if start.len() == 0 {
        assert(start + a =~= a);
        assert(start + b =~= b);
    } else {
        let rest = start.drop_first();
        bytes_compare_where_they_differ(rest, a, b);
        assert((start + a).drop_first() =~= rest + a);
        assert((start + b).drop_first() =~= rest + b);
        assert((start + a)[0] == start[0]);
        assert((start + b)[0] == start[0]);
    }
}

/// Of two lists of components the one with the smaller component where they first differ
/// comes first, and one that the other only continues. The root comes before a lone dot, that
/// before two dots, and those before names, which compare by their bytes.
pub proof fn components_compare_where_they_differ(
    start: Seq<Seq<u8>>,
    a: Seq<Seq<u8>>,
    b: Seq<Seq<u8>>,
)
    ensures
        a.len() > 0 && b.len() > 0 && a[0] != b[0] ==> (parts_less(start + a, start + b)
            <==> part_less(a[0], b[0])),
        a.len() > 0 ==> parts_less(start, start + a) && !parts_less(start + a, start),
        !parts_less(start, start),
        part_less(seq![47u8], seq![46u8]),
        part_less(seq![46u8], seq![46u8, 46u8]),
        b.len() > 0 && is_named(b[0]) ==> part_less(seq![46u8, 46u8], b[0]),
        a.len() > 0 && b.len() > 0 && is_named(a[0]) && is_named(b[0]) ==> (part_less(a[0], b[0])
            <==> bytes_less(a[0], b[0])),
    decreases start.len(),
{
    assert(root_part()[0] != here_part()[0]);
    assert(parent_part().len() == 2);
    assert(root_part().len() == 1);
    assert(here_part().len() == 1);
    if start.len() == 0 {
        assert(start + a =~= a);
        assert(start + b =~= b);
    } else {
        let rest = start.drop_first();
        components_compare_where_they_differ(rest, a, b);
        assert((start + a).drop_first() =~= rest + a);
        assert((start + b).drop_first() =~= rest + b);
        assert((start + a)[0] == start[0]);
        assert((start + b)[0] == start[0]);
    }
}

/// A path is the same however often its slashes and lone dots are written, and a slash at its
/// end does not matter.
pub proof fn slashes_and_dots_do_not_matter(folder: Seq<u8>, name: Seq<u8>)
    requires
        folder.len() > 0,
        name.len() == 0 || name[0] != 47,
    ensures
        same_path(folder.push(47u8), folder),
        same_path(folder + seq![47u8, 46u8], folder),
        same_path(folder + seq![47u8, 47u8] + name, joined(folder, name)),
        same_path(folder + seq![47u8, 46u8, 47u8] + name, joined(folder, name)),
{
    let empty = Seq::<u8>::empty();
    let dot = seq![46u8];
    assert(split_parts(empty) =~= Seq::<Seq<u8>>::empty());
    assert(dot.drop_last() =~= empty);
    assert(open_part(dot) =~= dot);
    assert(closed_parts(dot) =~= Seq::<Seq<u8>>::empty());
    assert(split_parts(dot) =~= Seq::<Seq<u8>>::empty());
    lemma_parts_behind_slash(folder, empty);
    lemma_parts_behind_slash(folder, dot);
    lemma_parts_behind_slash(folder, name);
    lemma_parts_behind_slash(folder.push(47u8), name);
    let dotted = folder.push(47u8) + dot;
    lemma_parts_behind_slash(dotted, name);
    assert(folder.push(47u8) + empty =~= folder.push(47u8));
    assert(folder + seq![47u8, 46u8] =~= folder.push(47u8) + dot);
    assert(folder + seq![47u8, 47u8] + name =~= folder.push(47u8).push(47u8) + name);
    assert(folder + seq![47u8, 46u8, 47u8] + name =~= dotted.push(47u8) + name);
    components_are_joined(folder, name);
    assert(parts_of(folder) + Seq::<Seq<u8>>::empty() =~= parts_of(folder));
}

proof fn lemma_parts_behind_slash(folder: Seq<u8>, piece: Seq<u8>)
    requires
        folder.len() > 0,
    ensures
        parts_of(folder.push(47u8) + piece) == parts_of(folder) + split_parts(piece),
{
    let whole = folder.push(47u8) + piece;
    lemma_split_at_slash(folder, piece);
    assert(split_parts(whole) =~= split_parts(folder) + split_parts(piece));
    assert(whole[0] == folder[0]);
    if folder.len() > 1 {
        assert(whole[1] == folder[1]);
    }
    assert(parts_of(whole) =~= parts_of(folder) + split_parts(piece));
}

/// A name without a slash is one component, with the root before it behind a slash, and with
/// a lone dot before it behind that and a slash. A path from the root is never the same as
/// one that is not.
pub proof fn names_are_components(name: Seq<u8>, a: Seq<u8>, b: Seq<u8>)
    requires
        name.len() > 0,
        !name.contains(47u8),
        name != seq![46u8],
    ensures
        parts_of(name) == seq![name],
        parts_of(seq![47u8] + name) == seq![seq![47u8], name],
        parts_of(seq![46u8, 47u8] + name) == seq![seq![46u8], name],
        parts_of(Seq::empty()).len() == 0,
        parts_of(seq![47u8]) == seq![seq![47u8]],
        a.len() > 0 && a[0] == 47 && (b.len() == 0 || b[0] != 47) ==> !same_path(a, b),
{
    let none = Seq::<Seq<u8>>::empty();
    let empty = Seq::<u8>::empty();
    let dot = seq![46u8];
    lemma_simple_name(name);
    assert(name.contains(name[0]));
    if name.len() > 1 {
        assert(name.contains(name[1]));
    } else {
        assert(name[0] != 46) by {
            if name[0] == 46 {
                assert(name =~= seq![46u8]);
            }
        }
    }
    assert(!is_void(name));
    assert(closed_parts(name) =~= none);
    assert(split_parts(name) =~= seq![name]);
    assert(parts_of(name) =~= seq![name]);
    assert(split_parts(empty) =~= none);
    lemma_split_at_slash(empty, name);
    assert(empty.push(47u8) + name =~= seq![47u8] + name);
    assert(split_parts(seq![47u8] + name) =~= seq![name]);
    assert(parts_of(seq![47u8] + name) =~= seq![seq![47u8], name]);
    assert(dot.drop_last() =~= empty);
    assert(open_part(dot) =~= dot);
    assert(closed_parts(dot) =~= none);
    assert(split_parts(dot) =~= none);
    lemma_split_at_slash(dot, name);
    assert(dot.push(47u8) + name =~= seq![46u8, 47u8] + name);
    assert(split_parts(seq![46u8, 47u8] + name) =~= seq![name]);
    assert(parts_of(seq![46u8, 47u8] + name) =~= seq![seq![46u8], name]);
    assert(seq![47u8].drop_last() =~= empty);
    assert(closed_parts(seq![47u8]) =~= none);
    assert(parts_of(seq![47u8]) =~= seq![seq![47u8]]);
    if a.len() > 0 && a[0] == 47 && (b.len() == 0 || b[0] != 47) {
        assert(parts_of(a)[0] == root_part());
        assert(root_part()[0] == 47);
        assert(root_part().contains(47u8));
        lemma_no_slashes(b);
        if parts_of(b).len() > 0 {
            assert(here_part()[0] == 46);
            assert(split_parts(b).len() > 0 ==> !split_parts(b)[0].contains(47u8));
        }
    }
}

proof fn lemma_no_slashes(s: Seq<u8>)
    ensures
        !open_part(s).contains(47u8),
        forall|i: int|
            0 <= i < closed_parts(s).len() ==> !(#[trigger] closed_parts(s)[i]).contains(47u8),
        forall|i: int|
            0 <= i < split_parts(s).len() ==> !(#[trigger] split_parts(s)[i]).contains(47u8),
    decreases s.len(),
{
    if s.len() > 0 {
        let rest = s.drop_last();
        lemma_no_slashes(rest);
        if s.last() != 47 {
            let part = open_part(s);
            if part.contains(47u8) {
                let k = choose|k: int| 0 <= k < part.len() && part[k] == 47u8;
                assert(open_part(rest)[k] == 47u8);
            }
        }
        let parts = closed_parts(s);
        let before = closed_parts(rest);
        assert forall|i: int| 0 <= i < parts.len() implies !(#[trigger] parts[i]).contains(47u8) by {
            if i < before.len() {
                assert(parts[i] == before[i]);
            } else {
                assert(parts[i] == open_part(rest));
            }
        }
    }
    let parts = split_parts(s);
    assert forall|i: int| 0 <= i < parts.len() implies !(#[trigger] parts[i]).contains(47u8) by {
        if i < closed_parts(s).len() {
            assert(parts[i] == closed_parts(s)[i]);
        } else {
            assert(parts[i] == open_part(s));
        }
    }
}

/// A path is in a list that was put together just when it is in one of the two; in a list of
/// one when it has the same components as that one; and in an empty list never.
pub proof fn paths_are_listed_one_by_one(
    a: Seq<Seq<u8>>,
    b: Seq<Seq<u8>>,
    one: Seq<u8>,
    path: Seq<u8>,
)
    ensures
        lists_path(a + b, path) <==> lists_path(a, path) || lists_path(b, path),
        lists_path(seq![one], path) <==> parts_of(one) == parts_of(path),
        !lists_path(Seq::empty(), path),
{
    let all = a + b;
    if lists_path(a, path) {
        let i = choose|i: int| 0 <= i < a.len() && same_path(#[trigger] a[i], path);
        assert(all[i] == a[i]);
    }
    if lists_path(b, path) {
        let i = choose|i: int| 0 <= i < b.len() && same_path(#[trigger] b[i], path);
        assert(all[a.len() + i] == b[i]);
    }
    if lists_path(all, path) {
        let i = choose|i: int| 0 <= i < all.len() && same_path(#[trigger] all[i], path);
        if i < a.len() {
            assert(a[i] == all[i]);
        } else {
            assert(b[i - a.len()] == all[i]);
        }
    }
    assert(seq![one][0] == one);
}

/// The name of a file is the last component of its path, unless that is the root, a lone dot
/// or two dots; a path without components names no file.
pub proof fn files_are_named_last(path: Seq<u8>)
    ensures
        parts_of(path).len() == 0 ==> file_name(path) is None,
        parts_of(path).len() > 0 ==> ({
            let last = parts_of(path).last();
            if last == seq![47u8] || last == seq![46u8] || last == seq![46u8, 46u8] {
                file_name(path) is None
            } else {
                file_name(path) == Some(last)
            }
        }),
{
}

/// Of two paths in a sorted list the later one is not the smaller one, and of two in a list
/// that has no path twice neither is the other, however they are written.
pub proof fn sorted_paths_go_up(list: Seq<Seq<u8>>, i: int, j: int)
    requires
        0 <= i < j < list.len(),
    ensures
        paths_sorted(list) ==> !path_less(list[j], list[i]),
        all_differ(list) ==> parts_of(list[i]) != parts_of(list[j]),
{
}

}
