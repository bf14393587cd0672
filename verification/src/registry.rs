//! The registry of local paths already given to files and folders, keyed by
//! course and item identifier, and its text backup.
//!
//! Files and folders share one table: a folder path registered under an
//! identifier is what a file lookup with that identifier finds, and the other
//! way round.

use std::collections::HashMap;
use vstd::prelude::*;
use vstd::relations::injective_on;
use vstd::std_specs::iter::IteratorSpec;
use vstd::std_specs::hash::{axiom_spec_hash_map_iter, spec_hash_map_iter};
use crate::numbers::{i32_text, parse_i32, spec_i32_text, spec_parse_i32};
use crate::text::{
    contains_seq, lemma_split_comma_space, lemma_split_without_separator, occurs_at, push_str,
    split_seq, split_str, string_views, strip_prefix_seq, strip_prefix_str, to_owned_string,
};

verus! {

broadcast use vstd::std_specs::hash::group_hash_axioms;

/// The table key of a (course, item) pair: the two identifiers, each shifted
/// into `0..2^32`, side by side in one `u64`.
pub open spec fn path_key(course_id: i32, item_id: i32) -> u64 {
    ((((course_id as int) + 0x8000_0000) as u64) << 32u64) | (((item_id as int) + 0x8000_0000) as u64)
}

/// The course identifier held in a table key.
pub open spec fn key_course(k: u64) -> i32 {
    (((k >> 32u64) as int) - 0x8000_0000) as i32
}

/// The item identifier held in a table key.
pub open spec fn key_item(k: u64) -> i32 {
    (((k & 0xffff_ffffu64) as int) - 0x8000_0000) as i32
}

proof fn lemma_key_parts(a: u64, b: u64)
    requires
        a < 0x1_0000_0000,
        b < 0x1_0000_0000,
    ensures
        ((a << 32u64) | b) >> 32u64 == a,
        ((a << 32u64) | b) & 0xffff_ffffu64 == b,
{
    assert(((a << 32u64) | b) >> 32u64 == a) by (bit_vector)
        requires
            a < 0x1_0000_0000u64,
            b < 0x1_0000_0000u64,
    ;
    assert(((a << 32u64) | b) & 0xffff_ffffu64 == b) by (bit_vector)
        requires
            a < 0x1_0000_0000u64,
            b < 0x1_0000_0000u64,
    ;
}

/// A key gives back the pair it was made from.
pub proof fn lemma_key_roundtrip(course_id: i32, item_id: i32)
    ensures
        key_course(path_key(course_id, item_id)) == course_id,
        key_item(path_key(course_id, item_id)) == item_id,
{
    let a = ((course_id as int) + 0x8000_0000) as u64;
    let b = ((item_id as int) + 0x8000_0000) as u64;
    lemma_key_parts(a, b);
}

/// Every key is the key of the pair it holds.
pub proof fn lemma_key_of_parts(k: u64)
    ensures
        path_key(key_course(k), key_item(k)) == k,
{
    assert(k >> 32u64 < 0x1_0000_0000u64 && k & 0xffff_ffffu64 < 0x1_0000_0000u64) by (bit_vector);
    assert(((k >> 32u64) << 32u64) | (k & 0xffff_ffffu64) == k) by (bit_vector);
}

/// Different pairs have different keys.
pub proof fn lemma_key_injective(c1: i32, i1: i32, c2: i32, i2: i32)
    requires
        path_key(c1, i1) == path_key(c2, i2),
    ensures
        c1 == c2 && i1 == i2,
{
    lemma_key_roundtrip(c1, i1);
    lemma_key_roundtrip(c2, i2);
}

fn key_of(course_id: i32, item_id: i32) -> (k: u64)
    ensures
        k == path_key(course_id, item_id),
{
    let a: u64 = ((course_id as i64) + 0x8000_0000) as u64;
    let b: u64 = ((item_id as i64) + 0x8000_0000) as u64;
    (a << 32u64) | b
}

fn course_of_key(k: u64) -> (c: i32)
    ensures
        c == key_course(k),
{
    let hi: u64 = k >> 32u64;
    assert(hi < 0x1_0000_0000u64) by (bit_vector)
        requires
            hi == k >> 32u64,
    ;
    ((hi as i64) - 0x8000_0000) as i32
}

fn item_of_key(k: u64) -> (i: i32)
    ensures
        i == key_item(k),
{
    let lo: u64 = k & 0xffff_ffffu64;
    assert(lo < 0x1_0000_0000u64) by (bit_vector)
        requires
            lo == k & 0xffff_ffffu64,
    ;
    ((lo as i64) - 0x8000_0000) as i32
}

/// Local paths registered for (course, item) pairs.
pub struct PathRegistry {
    paths: HashMap<u64, String>,
}

/// The path registered for a pair, if any.
pub open spec fn lookup(m: Map<(i32, i32), Seq<char>>, course_id: i32, item_id: i32) -> Option<Seq<char>> {
    if m.contains_key((course_id, item_id)) {
        Some(m[(course_id, item_id)])
    } else {
        None
    }
}

impl View for PathRegistry {
    type V = Map<(i32, i32), Seq<char>>;

    closed spec fn view(&self) -> Map<(i32, i32), Seq<char>> {
        Map::new(
            |p: (i32, i32)| self.paths@.contains_key(path_key(p.0, p.1)),
            |p: (i32, i32)| self.paths@[path_key(p.0, p.1)]@,
        )
    }
}

impl PathRegistry {
    /// What a file lookup answers for a pair.
    pub open spec fn file_path_of(&self, course_id: i32, file_identifier: i32) -> Option<Seq<char>> {
        lookup(self@, course_id, file_identifier)
    }

    /// What a folder lookup answers for a pair.
    pub open spec fn folder_path_of(&self, course_id: i32, folder_identifier: i32) -> Option<Seq<char>> {
        lookup(self@, course_id, folder_identifier)
    }

    /// An empty registry.
    pub fn new() -> (r: Self)
        ensures
            r@ == Map::<(i32, i32), Seq<char>>::empty(),
    {
        let r = PathRegistry { paths: HashMap::new() };
        assert(r@ =~= Map::<(i32, i32), Seq<char>>::empty());
        r
    }

    fn get_path(&self, course_id: i32, item_id: i32) -> (r: Option<String>)
        ensures
            r.deep_view() == lookup(self@, course_id, item_id),
    {
        let k = key_of(course_id, item_id);
        match self.paths.get(&k) {
            Some(p) => Some(p.clone()),
            None => None,
        }
    }

    fn add_path(&mut self, course_id: i32, item_id: i32, path: &str)
        ensures
            final(self)@ == old(self)@.insert((course_id, item_id), path@),
    {
        let k = key_of(course_id, item_id);
        let p = to_owned_string(path);
        self.paths.insert(k, p);
        proof {
            assert forall|q: (i32, i32)| q != (course_id, item_id) implies path_key(q.0, q.1) != k by {
                if path_key(q.0, q.1) == k {
                    lemma_key_injective(q.0, q.1, course_id, item_id);
                }
            }
        }
        assert(self@ =~= old(self)@.insert((course_id, item_id), path@));
    }

    /// The path registered for a file of a course.
    pub fn get_file_path(&self, course_id: i32, file_identifier: i32) -> (r: Option<String>)
        ensures
            r.deep_view() == self.file_path_of(course_id, file_identifier),
    {
        self.get_path(course_id, file_identifier)
    }

    /// Registers the path of a file of a course, replacing any earlier one.
    pub fn add_file_path(&mut self, course_id: i32, file_identifier: i32, path: &str)
        ensures
            final(self)@ == old(self)@.insert((course_id, file_identifier), path@),
    {
        self.add_path(course_id, file_identifier, path)
    }

    /// The path registered for a folder of a course (the table that file
    /// paths are in).
    pub fn get_folder_path(&self, course_id: i32, folder_identifier: i32) -> (r: Option<String>)
        ensures
            r.deep_view() == self.folder_path_of(course_id, folder_identifier),
    {
        self.get_path(course_id, folder_identifier)
    }

    /// Registers the path of a folder of a course (in the table that file
    /// paths are in), replacing any earlier one.
    pub fn add_folder_path(&mut self, course_id: i32, folder_identifier: i32, path: &str)
        ensures
            final(self)@ == old(self)@.insert((course_id, folder_identifier), path@),
    {
        self.add_path(course_id, folder_identifier, path)
    }
}

/// The backup line of one registry entry: `ID1: <course>, ID2: <item>, Path: <path>`.
pub open spec fn spec_path_record(course_id: i32, item_id: i32, path: Seq<char>) -> Seq<char> {
    "ID1: "@ + spec_i32_text(course_id) + ", ID2: "@ + spec_i32_text(item_id) + ", Path: "@ + path
}

/// What reading a backup line gives: the line split at `", "` must have
/// exactly three pieces, labelled `ID1: `, `ID2: ` and `Path: `, the first
/// two labels followed by integers.
pub open spec fn spec_parse_path_record(line: Seq<char>) -> Option<(i32, i32, Seq<char>)> {
    let parts = split_seq(line, ", "@);
    if parts.len() == 3 {
        match (
            strip_prefix_seq(parts[0], "ID1: "@),
            strip_prefix_seq(parts[1], "ID2: "@),
            strip_prefix_seq(parts[2], "Path: "@),
        ) {
            (Some(a), Some(b), Some(p)) => match (spec_parse_i32(a), spec_parse_i32(b)) {
                (Some(c), Some(i)) => Some((c, i, p)),
                _ => None,
            },
            _ => None,
        }
    } else {
        None
    }
}

/// The registry after reading the given lines in order: each line that reads
/// as a record registers its path.
pub open spec fn restored(m: Map<(i32, i32), Seq<char>>, lines: Seq<Seq<char>>) -> Map<(i32, i32), Seq<char>>
    decreases lines.len(),
{
    if lines.len() == 0 {
        m
    } else {
        let before = restored(m, lines.drop_last());
        match spec_parse_path_record(lines.last()) {
            Some((c, i, p)) => before.insert((c, i), p),
            None => before,
        }
    }
}

/// The backup line of one registry entry.
pub fn format_path_record(course_id: i32, item_id: i32, path: &str) -> (line: String)
    ensures
        line@ == spec_path_record(course_id, item_id, path@),
{
    let mut line = String::new();
    push_str(&mut line, "ID1: ");
    let c = i32_text(course_id);
    push_str(&mut line, c.as_str());
    push_str(&mut line, ", ID2: ");
    let i = i32_text(item_id);
    push_str(&mut line, i.as_str());
    push_str(&mut line, ", Path: ");
    push_str(&mut line, path);
    line
}

/// Reads one backup line.
pub fn parse_path_record(line: &str) -> (r: Option<(i32, i32, String)>)
    ensures
        match r {
            Some((c, i, p)) => spec_parse_path_record(line@) == Some((c, i, p@)),
            None => spec_parse_path_record(line@) is None,
        },
{
    proof {
        reveal_strlit(", ");
    }
    let parts = split_str(line, ", ");
    if parts.len() != 3 {
        return None;
    }
    assert(parts@[0]@ == string_views(parts@)[0]);
    assert(parts@[1]@ == string_views(parts@)[1]);
    assert(parts@[2]@ == string_views(parts@)[2]);
    let a = match strip_prefix_str(parts[0].as_str(), "ID1: ") {
        Some(a) => a,
        None => {
            return None;
        },
    };
    let b = match strip_prefix_str(parts[1].as_str(), "ID2: ") {
        Some(b) => b,
        None => {
            return None;
        },
    };
    let p = match strip_prefix_str(parts[2].as_str(), "Path: ") {
        Some(p) => p,
        None => {
            return None;
        },
    };
    match (parse_i32(a.as_str()), parse_i32(b.as_str())) {
        (Some(x), Some(y)) => Some((x, y, p)),
        _ => None,
    }
}

/// A text that starts with `label` and holds no comma there, followed by
/// `rest`, which holds no `", "`, holds no `", "` itself.
proof fn lemma_labelled_has_no_separator(label: Seq<char>, rest: Seq<char>)
    requires
        label.len() > 0,
        label.last() == ' ',
        forall|k: int| 0 <= k < label.len() ==> #[trigger] label[k] != ',',
        !contains_seq(rest, ", "@),
    ensures
        !contains_seq(label + rest, ", "@),
{
    reveal_strlit(", ");
    let s = label + rest;
    let n = label.len() as int;
    assert forall|j: int| !occurs_at(s, ", "@, j) by {
        if occurs_at(s, ", "@, j) {
            let w = s.subrange(j, j + 2);
            assert(w[0] == s[j] && w[1] == s[j + 1]);
            if j < n {
                assert(s[j] == label[j]);
            } else {
                assert(rest.subrange(j - n, j - n + 2) =~= w);
                assert(occurs_at(rest, ", "@, j - n));
            }
        }
    }
}

/// The text of an `i32` after a label: no comma in it.
proof fn lemma_labelled_number_has_no_comma(label: Seq<char>, n: i32)
    requires
        forall|k: int| 0 <= k < label.len() ==> #[trigger] label[k] != ',',
    ensures
        forall|k: int| 0 <= k < (label + spec_i32_text(n)).len() ==> #[trigger] (label + spec_i32_text(n))[k] != ',',
{
    crate::numbers::lemma_i32_text_chars(n);
    let s = label + spec_i32_text(n);
    assert forall|k: int| 0 <= k < s.len() implies #[trigger] s[k] != ',' by {
        if k >= label.len() {
            assert(s[k] == spec_i32_text(n)[k - label.len()]);
        }
    }
}

/// A backup line reads back as the entry it was written from, where the path
/// holds no `", "`.
pub proof fn lemma_record_read_back(course_id: i32, item_id: i32, path: Seq<char>)
    requires
        !contains_seq(path, ", "@),
    ensures
        spec_parse_path_record(spec_path_record(course_id, item_id, path)) == Some((course_id, item_id, path)),
{
    reveal_strlit(", ");
    reveal_strlit("ID1: ");
    reveal_strlit("ID2: ");
    reveal_strlit("Path: ");
    reveal_strlit(", ID2: ");
    reveal_strlit(", Path: ");
    let a = "ID1: "@ + spec_i32_text(course_id);
    let b = "ID2: "@ + spec_i32_text(item_id);
    let c = "Path: "@ + path;
    assert(spec_path_record(course_id, item_id, path) =~= a + ", "@ + (b + ", "@ + c));
    lemma_labelled_number_has_no_comma("ID1: "@, course_id);
    lemma_labelled_number_has_no_comma("ID2: "@, item_id);
    lemma_labelled_has_no_separator("Path: "@, path);
    lemma_split_comma_space(a, b + ", "@ + c);
    lemma_split_comma_space(b, c);
    lemma_split_without_separator(c, ", "@);
    let parts = split_seq(spec_path_record(course_id, item_id, path), ", "@);
    assert(parts =~= seq![a, b, c]);
    assert(a.take(5) =~= "ID1: "@ && a.skip(5) =~= spec_i32_text(course_id));
    assert(b.take(5) =~= "ID2: "@ && b.skip(5) =~= spec_i32_text(item_id));
    assert(c.take(6) =~= "Path: "@ && c.skip(6) =~= path);
    crate::numbers::lemma_parse_i32_text(course_id);
    crate::numbers::lemma_parse_i32_text(item_id);
}

/// The entries of `m` whose backup line is among `lines`.
pub open spec fn recorded_keys(m: Map<(i32, i32), Seq<char>>, lines: Seq<Seq<char>>) -> Set<(i32, i32)> {
    Set::new(
        |q: (i32, i32)|
            m.contains_key(q) && exists|j: int| 0 <= j < lines.len() && lines[j] == spec_path_record(q.0, q.1, m[q]),
    )
}

/// No path of `m` holds `", "`.
pub open spec fn paths_without_separator(m: Map<(i32, i32), Seq<char>>) -> bool {
    forall|q: (i32, i32)| #[trigger] m.contains_key(q) ==> !contains_seq(m[q], ", "@)
}

/// Reading backup lines of `m`, in any order, registers exactly the entries
/// whose lines were read.
proof fn lemma_restored_entries(start: Map<(i32, i32), Seq<char>>, m: Map<(i32, i32), Seq<char>>, lines: Seq<Seq<char>>)
    requires
        paths_without_separator(m),
        forall|j: int| 0 <= j < lines.len() ==> is_entry_record(m, #[trigger] lines[j]),
    ensures
        restored(start, lines) == start.union_prefer_right(m.restrict(recorded_keys(m, lines))),
    decreases lines.len(),
{
    let target = start.union_prefer_right(m.restrict(recorded_keys(m, lines)));
    if lines.len() == 0 {
        assert(recorded_keys(m, lines) =~= Set::empty());
        assert(restored(start, lines) =~= target);
    } else {
        let init = lines.drop_last();
        assert forall|j: int| 0 <= j < init.len() implies is_entry_record(m, #[trigger] init[j]) by {
            assert(init[j] == lines[j]);
        }
        lemma_restored_entries(start, m, init);
        let last = lines.last();
        assert(is_entry_record(m, lines[lines.len() - 1]));
        let (c, i) = choose|c: i32, i: i32| m.contains_key((c, i)) && last == #[trigger] spec_path_record(c, i, m[(c, i)]);
        lemma_record_read_back(c, i, m[(c, i)]);
        let before = start.union_prefer_right(m.restrict(recorded_keys(m, init)));
        assert(restored(start, lines) == before.insert((c, i), m[(c, i)]));
        let ki = recorded_keys(m, init);
        let kl = recorded_keys(m, lines);
        assert forall|q: (i32, i32)| #[trigger] kl.contains(q) <==> ki.contains(q) || q == (c, i) by {
            if kl.contains(q) {
                let j = choose|j: int| 0 <= j < lines.len() && lines[j] == spec_path_record(q.0, q.1, m[q]);
                if j < init.len() {
                    assert(init[j] == lines[j]);
                } else {
                    lemma_record_read_back(q.0, q.1, m[q]);
                }
            }
            if ki.contains(q) {
                let j = choose|j: int| 0 <= j < init.len() && init[j] == spec_path_record(q.0, q.1, m[q]);
                assert(lines[j] == init[j]);
            }
            if q == (c, i) {
                assert(lines[lines.len() - 1] == spec_path_record(q.0, q.1, m[q]));
            }
        }
        assert(restored(start, lines) =~= target);
    }
}

/// Restoring the backup lines of a registry `m` (each entry's line at least
/// once, in any order, and no other line) on top of a registry `start` gives
/// `start` with every entry of `m` registered; on an empty registry it gives
/// `m` back. Paths that hold `", "` are left out: their lines split into
/// more than three pieces.
pub proof fn lemma_restore_gives_back(
    start: Map<(i32, i32), Seq<char>>,
    m: Map<(i32, i32), Seq<char>>,
    lines: Seq<Seq<char>>,
)
    requires
        paths_without_separator(m),
        forall|j: int| 0 <= j < lines.len() ==> is_entry_record(m, #[trigger] lines[j]),
        forall|c: i32, i: i32| #[trigger] m.contains_key((c, i)) ==> exists|j: int| 0 <= j < lines.len()
            && lines[j] == spec_path_record(c, i, m[(c, i)]),
    ensures
        restored(start, lines) == start.union_prefer_right(m),
        restored(Map::empty(), lines) == m,
{
    lemma_restored_entries(start, m, lines);
    lemma_restored_entries(Map::empty(), m, lines);
    assert forall|q: (i32, i32)| m.contains_key(q) implies #[trigger] recorded_keys(m, lines).contains(q) by {
        assert(m.contains_key((q.0, q.1)));
    }
    assert(m.restrict(recorded_keys(m, lines)) =~= m);
    assert(Map::<(i32, i32), Seq<char>>::empty().union_prefer_right(m) =~= m);
}

impl PathRegistry {
    /// Registers the record of every line that reads as one, in order.
    pub fn restore_lines(&mut self, lines: &Vec<String>)
        ensures
            final(self)@ == restored(old(self)@, string_views(lines@)),
    {
        let ghost start = self@;
        for j in 0..lines.len()
            invariant
                self@ == restored(start, string_views(lines@).take(j as int)),
        {
            let ghost before = string_views(lines@).take(j as int);
            let ghost after = string_views(lines@).take(j + 1);
            assert(after.drop_last() =~= before);
            assert(after.last() == lines@[j as int]@);
            match parse_path_record(lines[j].as_str()) {
                Some((c, i, p)) => {
                    self.add_file_path(c, i, p.as_str());
                },
                None => {},
            }
        }
        assert(string_views(lines@).take(lines@.len() as int) =~= string_views(lines@));
    }
}

/// `line` is the backup line of an entry of `m`.
pub open spec fn is_entry_record(m: Map<(i32, i32), Seq<char>>, line: Seq<char>) -> bool {
    exists|c: i32, i: i32| m.contains_key((c, i)) && line == #[trigger] spec_path_record(c, i, m[(c, i)])
}

impl PathRegistry {
    /// The backup lines of all entries, one per entry, in the table's own
    /// (unspecified) order.
    #[verifier::rlimit(50)]
    pub fn backup_records(&self) -> (lines: Vec<String>)
        ensures
            lines@.len() == self@.dom().len(),
            forall|j: int| 0 <= j < lines@.len() ==> is_entry_record(self@, #[trigger] lines@[j]@),
            forall|c: i32, i: i32| #[trigger] self@.contains_key((c, i)) ==> exists|j: int| 0 <= j < lines@.len()
                && #[trigger] lines@[j]@ == spec_path_record(c, i, self@[(c, i)]),
    {
        let mut lines: Vec<String> = Vec::new();
        let ghost entries = spec_hash_map_iter(&self.paths).remaining();
        proof {
            axiom_spec_hash_map_iter(&self.paths);
        }
        for pair in it: self.paths.iter()
            invariant
                it.seq() == entries,
                lines@.len() == it.index(),
                forall|j: int| 0 <= j < it.index() ==> {
                    let (k, v) = #[trigger] entries[j];
                    lines@[j]@ == spec_path_record(key_course(*k), key_item(*k), v@)
                },
        {
            let (k, v) = pair;
            let c = course_of_key(*k);
            let i = item_of_key(*k);
            lines.push(format_path_record(c, i, v.as_str()));
        }
        proof {
            let f = |k: u64| (key_course(k), key_item(k));
            let kd = self.paths@.dom();
            assert(injective_on(f, kd)) by {
                assert forall|k1: u64, k2: u64| kd.contains(k1) && kd.contains(k2) && #[trigger] f(k1) == #[trigger] f(k2) implies k1 == k2 by {
                    lemma_key_of_parts(k1);
                    lemma_key_of_parts(k2);
                }
            }
            assert(kd.map(f) =~= self@.dom()) by {
                assert forall|q: (i32, i32)| #[trigger] self@.dom().contains(q) implies kd.map(f).contains(q) by {
                    lemma_key_roundtrip(q.0, q.1);
                    assert(f(path_key(q.0, q.1)) == q);
                }
                assert forall|q: (i32, i32)| #[trigger] kd.map(f).contains(q) implies self@.dom().contains(q) by {
                    let k = choose|k: u64| kd.contains(k) && q == f(k);
                    lemma_key_of_parts(k);
                }
            }
            vstd::set_lib::lemma_map_size(kd, self@.dom(), f);
            assert forall|j: int| 0 <= j < lines@.len() implies is_entry_record(self@, #[trigger] lines@[j]@) by {
                let (k, v) = entries[j];
                assert(self.paths@.contains_key(*k) && self.paths@[*k] == *v);
                lemma_key_of_parts(*k);
                let c = key_course(*k);
                let i = key_item(*k);
                assert(self@.contains_key((c, i)));
                assert(lines@[j]@ == spec_path_record(c, i, self@[(c, i)]));
            }
            assert forall|c: i32, i: i32| #[trigger] self@.contains_key((c, i)) implies exists|j: int| 0 <= j < lines@.len()
                && #[trigger] lines@[j]@ == spec_path_record(c, i, self@[(c, i)]) by {
                let k = path_key(c, i);
                assert(self.paths@.contains_key(k));
                assert(entries.contains((&k, &self.paths@[k])));
                let j = choose|j: int| 0 <= j < entries.len() && entries[j] == (&k, &self.paths@[k]);
                lemma_key_roundtrip(c, i);
                assert(lines@[j]@ == spec_path_record(c, i, self@[(c, i)]));
            }
        }
        lines
    }
}

/// A lookup after registering a path for a pair finds that path, and finds
/// for every other pair what it found before.
pub proof fn lemma_lookup_after_add(
    m: Map<(i32, i32), Seq<char>>,
    course_id: i32,
    item_id: i32,
    path: Seq<char>,
    other_course: i32,
    other_item: i32,
)
    ensures
        lookup(m.insert((course_id, item_id), path), course_id, item_id) == Some(path),
        (other_course, other_item) != (course_id, item_id) ==> lookup(
            m.insert((course_id, item_id), path),
            other_course,
            other_item,
        ) == lookup(m, other_course, other_item),
{
}

/// File and folder paths live in one table: a folder lookup answers what a
/// file lookup with the same identifiers answers, and once a folder path is
/// registered (`add_folder_path`), a file lookup with its identifiers finds
/// it, as a folder lookup does after `add_file_path`.
pub proof fn lemma_file_and_folder_paths_shared(
    r: PathRegistry,
    after: PathRegistry,
    course_id: i32,
    id: i32,
    path: Seq<char>,
)
    requires
        after@ == r@.insert((course_id, id), path),
    ensures
        r.folder_path_of(course_id, id) == r.file_path_of(course_id, id),
        after.file_path_of(course_id, id) == Some(path),
        after.folder_path_of(course_id, id) == Some(path),
{
}

} // verus!
