//! The order of a course's file listing (newest first, files without a time
//! before all others), its de-duplication, and where each file goes.

use core::cmp::Ordering;
use vstd::prelude::*;
use crate::model::{File, Folder};
use crate::naming::{is_ascii_word_char, sanitize_file_name, sanitize_folder_name, spec_sanitize_file_name, spec_sanitize_folder_name};
use crate::text::{push_str, to_owned_string};
use crate::time::{spec_parse_modified, timestamp_le, ts_le, Timestamp};

verus! {

/// The sort key of a file: its modification time, where it parses.
pub open spec fn file_key(f: File) -> Option<Timestamp> {
    spec_parse_modified(f.modified_at.deep_view())
}

/// Key `a` may come before key `b`: no time comes first; among times, the
/// later one comes first.
pub open spec fn key_le(a: Option<Timestamp>, b: Option<Timestamp>) -> bool {
    match (a, b) {
        (None, _) => true,
        (Some(_), None) => false,
        (Some(x), Some(y)) => ts_le(y, x),
    }
}

/// The comparison of two files by their keys.
pub open spec fn file_order(a: File, b: File) -> Ordering {
    let ka = file_key(a);
    let kb = file_key(b);
    if key_le(ka, kb) && key_le(kb, ka) {
        Ordering::Equal
    } else if key_le(ka, kb) {
        Ordering::Less
    } else {
        Ordering::Greater
    }
}

/// Two files are the same entry: same folder and same file name.
pub open spec fn same_entry(a: File, b: File) -> bool {
    a.folder_id == b.folder_id && a.filename.deep_view() == b.filename.deep_view()
}

fn key_le_exec(a: &Option<Timestamp>, b: &Option<Timestamp>) -> (r: bool)
    ensures
        r == key_le(*a, *b),
{
    match (a, b) {
        (None, _) => true,
        (Some(_), None) => false,
        (Some(x), Some(y)) => timestamp_le(y, x),
    }
}

impl File {
    /// Orders files newest first; a file without a parsable time comes before
    /// any file with one, and two such files are equal.
    pub fn cmp(&self, other: &Self) -> (r: Ordering)
        ensures
            r == file_order(*self, *other),
    {
        let a = self.parsed_modified_at();
        let b = other.parsed_modified_at();
        let ab = key_le_exec(&a, &b);
        let ba = key_le_exec(&b, &a);
        if ab && ba {
            Ordering::Equal
        } else if ab {
            Ordering::Less
        } else {
            Ordering::Greater
        }
    }

    /// The comparison of `cmp`, which is always defined.
    pub fn partial_cmp(&self, other: &Self) -> (r: Option<Ordering>)
        ensures
            r == Some(file_order(*self, *other)),
    {
        Some(self.cmp(other))
    }

    /// Two files are equal when they are in the same folder under the same
    /// file name.
    pub fn eq(&self, other: &Self) -> (r: bool)
        ensures
            r == same_entry(*self, *other),
    {
        if self.folder_id != other.folder_id {
            return false;
        }
        match (&self.filename, &other.filename) {
            (Some(a), Some(b)) => String::eq(a, b),
            (None, None) => true,
            _ => false,
        }
    }
}

/// Key order is total.
pub proof fn lemma_key_le_total(a: Option<Timestamp>, b: Option<Timestamp>)
    ensures
        key_le(a, b) || key_le(b, a),
{
}

/// Key order is transitive.
pub proof fn lemma_key_le_transitive(a: Option<Timestamp>, b: Option<Timestamp>, c: Option<Timestamp>)
    requires
        key_le(a, b),
        key_le(b, c),
    ensures
        key_le(a, c),
{
}

/// The keys of a list of files.
pub open spec fn keys_of(files: Seq<File>) -> Seq<Option<Timestamp>> {
    files.map_values(|f: File| file_key(f))
}

/// Keys in order.
pub open spec fn keys_sorted(ks: Seq<Option<Timestamp>>) -> bool {
    forall|j: int, k: int| 0 <= j < k < ks.len() ==> key_le(#[trigger] ks[j], #[trigger] ks[k])
}

/// Among equal keys, the positions in the input keep their order.
pub open spec fn keys_stable(ks: Seq<Option<Timestamp>>, perm: Seq<int>) -> bool {
    forall|j: int, k: int| 0 <= j < k < ks.len() && key_le(#[trigger] ks[k], #[trigger] ks[j]) ==> perm[j] < perm[k]
}

/// `perm` uses each of `0..n` exactly once.
pub open spec fn is_index_permutation(perm: Seq<int>, n: int) -> bool {
    &&& perm.len() == n
    &&& forall|j: int| 0 <= j < n ==> 0 <= #[trigger] perm[j] < n
    &&& forall|j: int, k: int| 0 <= j < k < n ==> #[trigger] perm[j] != #[trigger] perm[k]
}

/// `out` holds the files of `input`, rearranged by `perm`.
pub open spec fn rearranged(input: Seq<File>, out: Seq<File>, perm: Seq<int>) -> bool {
    &&& out.len() == input.len()
    &&& is_index_permutation(perm, input.len() as int)
    &&& forall|j: int| 0 <= j < out.len() ==> #[trigger] out[j] == input[perm[j]]
}

/// `out` is the stable sort of `input` by file order: a rearrangement in
/// key order where files with equal keys keep their relative order.
pub open spec fn is_stable_sort(input: Seq<File>, out: Seq<File>) -> bool {
    exists|perm: Seq<int>|
        rearranged(input, out, perm) && keys_sorted(keys_of(out)) && keys_stable(keys_of(out), perm)
}

proof fn lemma_insert_step(
    ks: Seq<Option<Timestamp>>,
    perm: Seq<int>,
    t: int,
    pos: int,
    knew: Option<Timestamp>,
)
    requires
        ks.len() == t,
        is_index_permutation(perm, t),
        keys_sorted(ks),
        keys_stable(ks, perm),
        0 <= pos <= t,
        forall|j: int| 0 <= j < pos ==> key_le(#[trigger] ks[j], knew),
        forall|j: int| pos <= j < t ==> !key_le(#[trigger] ks[j], knew),
    ensures
        is_index_permutation(perm.insert(pos, t), t + 1),
        keys_sorted(ks.insert(pos, knew)),
        keys_stable(ks.insert(pos, knew), perm.insert(pos, t)),
{
    let ks2 = ks.insert(pos, knew);
    let p2 = perm.insert(pos, t);
    assert forall|j: int| 0 <= j < t + 1 implies 0 <= #[trigger] p2[j] < t + 1 by {
        if j < pos {
            assert(p2[j] == perm[j]);
        } else if j > pos {
            assert(p2[j] == perm[j - 1]);
        }
    }
    assert forall|j: int, k: int| 0 <= j < k < t + 1 implies #[trigger] p2[j] != #[trigger] p2[k] by {
        if j < pos && k < pos {
            assert(p2[j] == perm[j] && p2[k] == perm[k]);
        } else if j < pos && k == pos {
            assert(p2[j] == perm[j]);
        } else if j < pos && k > pos {
            assert(p2[j] == perm[j] && p2[k] == perm[k - 1]);
        } else if j == pos {
            assert(p2[k] == perm[k - 1]);
        } else {
            assert(p2[j] == perm[j - 1] && p2[k] == perm[k - 1]);
        }
    }
    assert forall|j: int, k: int| 0 <= j < k < t + 1 implies key_le(#[trigger] ks2[j], #[trigger] ks2[k]) by {
        if k < pos {
            assert(ks2[j] == ks[j] && ks2[k] == ks[k]);
        } else if k == pos {
            assert(ks2[j] == ks[j]);
        } else if j < pos {
            assert(ks2[j] == ks[j] && ks2[k] == ks[k - 1]);
            assert(key_le(ks[j], ks[k - 1]));
        } else if j == pos {
            assert(ks2[k] == ks[k - 1]);
            lemma_key_le_total(ks[k - 1], knew);
        } else {
            assert(ks2[j] == ks[j - 1] && ks2[k] == ks[k - 1]);
            assert(key_le(ks[j - 1], ks[k - 1]));
        }
    }
    assert forall|j: int, k: int| 0 <= j < k < t + 1 && key_le(#[trigger] ks2[k], #[trigger] ks2[j]) implies p2[j] < p2[k] by {
        if k < pos {
            assert(ks2[j] == ks[j] && ks2[k] == ks[k]);
            assert(p2[j] == perm[j] && p2[k] == perm[k]);
        } else if k == pos {
            assert(p2[j] == perm[j]);
        } else if j < pos {
            assert(ks2[j] == ks[j] && ks2[k] == ks[k - 1]);
            assert(p2[j] == perm[j] && p2[k] == perm[k - 1]);
            assert(perm[j] < perm[k - 1]);
        } else if j == pos {
            assert(ks2[k] == ks[k - 1]);
            assert(!key_le(ks[k - 1], knew));
        } else {
            assert(ks2[j] == ks[j - 1] && ks2[k] == ks[k - 1]);
            assert(p2[j] == perm[j - 1] && p2[k] == perm[k - 1]);
            assert(perm[j - 1] < perm[k - 1]);
        }
    }
}

/// Sorts a file listing newest first, keeping the listing order among files
/// whose keys are equal (as a stable sort by `File::cmp` does).
pub fn sort_newest_first(files: Vec<File>) -> (out: Vec<File>)
    ensures
        is_stable_sort(files@, out@),
        forall|i: int| 0 <= i < files@.len() ==> appears_in(out@, #[trigger] files@[i]),
{
    let ghost input = files@;
    let mut out: Vec<File> = Vec::new();
    let mut keys: Vec<Option<Timestamp>> = Vec::new();
    let ghost mut perm: Seq<int> = Seq::empty();
    let ghost mut inv: Seq<int> = Seq::empty();
    for f in it: files.into_iter()
        invariant
            it.seq() == input,
            out@.len() == it.index(),
            keys@ == keys_of(out@),
            rearranged(input.take(it.index()), out@, perm),
            keys_sorted(keys@),
            keys_stable(keys@, perm),
            inv.len() == out@.len(),
            forall|i: int| 0 <= i < inv.len() ==> 0 <= #[trigger] inv[i] < out@.len() && out@[inv[i]] == input[i],
    {
        let ghost t = it.index();
        assert(f == input[t]);
        let k = f.parsed_modified_at();
        let mut pos: usize = 0;
        while pos < keys.len() && key_le_exec(&keys[pos], &k)
            invariant
                pos <= keys@.len(),
                forall|j: int| 0 <= j < pos ==> key_le(#[trigger] keys@[j], k),
            decreases keys@.len() - pos,
        {
            pos = pos + 1;
        }
        proof {
            assert forall|j: int| pos <= j < keys@.len() implies !key_le(#[trigger] keys@[j], k) by {
                if key_le(keys@[j], k) {
                    if j > pos {
                        assert(key_le(keys@[pos as int], keys@[j]));
                        lemma_key_le_transitive(keys@[pos as int], keys@[j], k);
                    }
                }
            }
            lemma_insert_step(keys@, perm, t, pos as int, k);
        }
        let ghost old_out = out@;
        out.insert(pos, f);
        keys.insert(pos, k);
        proof {
            let p2 = perm.insert(pos as int, t);
            assert(keys@ =~= keys_of(out@));
            let inp2 = input.take(t + 1);
            assert forall|j: int| 0 <= j < out@.len() implies #[trigger] out@[j] == inp2[p2[j]] by {
                if j < pos {
                    assert(out@[j] == old_out[j]);
                    assert(p2[j] == perm[j]);
                } else if j > pos {
                    assert(out@[j] == old_out[j - 1]);
                    assert(p2[j] == perm[j - 1]);
                }
            }
            perm = p2;
            lemma_insert_members(old_out, out@, pos as int, inv, input, t);
            inv = shifted_positions(inv, pos as int).push(pos as int);
        }
    }
    proof {
        assert(input.take(input.len() as int) =~= input);
        assert(out@.len() == input.len());
        assert(inv.len() == input.len());
        assert forall|i: int| 0 <= i < input.len() implies appears_in(out@, #[trigger] input[i]) by {
            assert(0 <= inv[i] < out@.len() && out@[inv[i]] == input[i]);
        }
    }
    out
}

/// `x` is one of the files of `s`.
pub open spec fn appears_in(s: Seq<File>, x: File) -> bool {
    exists|p: int| 0 <= p < s.len() && s[p] == x
}

/// Positions after inserting at `pos`: those at or after it move one on.
pub open spec fn shifted_positions(inv: Seq<int>, pos: int) -> Seq<int> {
    inv.map_values(|p: int| if p >= pos { p + 1 } else { p })
}

proof fn lemma_insert_members(old_out: Seq<File>, new_out: Seq<File>, pos: int, inv: Seq<int>, input: Seq<File>, t: int)
    requires
        0 <= t < input.len(),
        0 <= pos <= old_out.len(),
        new_out == old_out.insert(pos, input[t]),
        inv.len() == t,
        forall|i: int| 0 <= i < inv.len() ==> 0 <= #[trigger] inv[i] < old_out.len() && old_out[inv[i]] == input[i],
    ensures
        ({
            let inv2 = shifted_positions(inv, pos).push(pos);
            &&& inv2.len() == t + 1
            &&& forall|i: int| 0 <= i < inv2.len() ==> 0 <= #[trigger] inv2[i] < new_out.len() && new_out[inv2[i]] == input[i]
        }),
{
    let inv2 = shifted_positions(inv, pos).push(pos);
    assert forall|i: int| 0 <= i < inv2.len() implies 0 <= #[trigger] inv2[i] < new_out.len() && new_out[inv2[i]] == input[i] by {
        if i < t {
            let p = inv[i];
            assert(0 <= p < old_out.len() && old_out[p] == input[i]);
            if p >= pos {
                assert(inv2[i] == p + 1);
                assert(new_out[p + 1] == old_out[p]);
            } else {
                assert(inv2[i] == p);
                assert(new_out[p] == old_out[p]);
            }
        } else {
            assert(inv2[i] == pos);
        }
    }
}

/// Some file of `s` is the same entry as `x`.
pub open spec fn has_entry(s: Seq<File>, x: File) -> bool {
    exists|k: int| 0 <= k < s.len() && #[trigger] same_entry(s[k], x)
}

/// The first file of each entry (folder and file name) of a listing, in
/// listing order: a file is kept unless a file before it is the same entry.
pub open spec fn first_of_each_entry(s: Seq<File>) -> Seq<File>
    decreases s.len(),
{
    if s.len() == 0 {
        Seq::empty()
    } else if has_entry(s.drop_last(), s.last()) {
        first_of_each_entry(s.drop_last())
    } else {
        first_of_each_entry(s.drop_last()).push(s.last())
    }
}

/// The first file of each entry holds no two files of one entry, has a file
/// of every entry of the listing, and each file it keeps is a file of the
/// listing with no file of its entry before it.
#[verifier::rlimit(40)]
#[verifier::spinoff_prover]
pub proof fn lemma_first_of_each_entry(s: Seq<File>)
    ensures
        forall|j: int, k: int| 0 <= j < k < first_of_each_entry(s).len() ==> !same_entry(
            #[trigger] first_of_each_entry(s)[j],
            #[trigger] first_of_each_entry(s)[k],
        ),
        forall|j: int| 0 <= j < s.len() ==> has_entry(first_of_each_entry(s), #[trigger] s[j]),
        forall|k: int| 0 <= k < first_of_each_entry(s).len() ==> exists|p: int| 0 <= p < s.len()
            && s[p] == #[trigger] first_of_each_entry(s)[k] && !has_entry(s.take(p), s[p]),
    decreases s.len(),
{
    if s.len() > 0 {
        let init = s.drop_last();
        let last = s.last();
        lemma_first_of_each_entry(init);
        let di = first_of_each_entry(init);
        let d = first_of_each_entry(s);
        if has_entry(init, last) {
            assert(d == di);
            assert forall|j: int| 0 <= j < s.len() implies has_entry(d, #[trigger] s[j]) by {
                if j < init.len() {
                    assert(s[j] == init[j]);
                    assert(has_entry(di, init[j]));
                } else {
                    let q = choose|q: int| 0 <= q < init.len() && #[trigger] same_entry(init[q], last);
                    assert(has_entry(di, init[q]));
                    let m = choose|m: int| 0 <= m < di.len() && #[trigger] same_entry(di[m], init[q]);
                    assert(same_entry(d[m], s[j]));
                }
            }
            assert forall|k: int| 0 <= k < d.len() implies exists|p: int| 0 <= p < s.len()
                && s[p] == #[trigger] d[k] && !has_entry(s.take(p), s[p]) by {
                let p = choose|p: int| 0 <= p < init.len() && init[p] == #[trigger] di[k] && !has_entry(init.take(p), init[p]);
                assert(s[p] == init[p]);
                assert(s.take(p) =~= init.take(p));
            }
        } else {
            assert(d == di.push(last));
            assert forall|j: int, k: int| 0 <= j < k < d.len() implies !same_entry(#[trigger] d[j], #[trigger] d[k]) by {
                assert(d[j] == di[j]);
                if k < di.len() {
                    assert(d[k] == di[k]);
                } else {
                    let p = choose|p: int| 0 <= p < init.len() && init[p] == #[trigger] di[j] && !has_entry(init.take(p), init[p]);
                    if same_entry(d[j], d[k]) {
                        assert(same_entry(init[p], last));
                    }
                }
            }
            assert forall|j: int| 0 <= j < s.len() implies has_entry(d, #[trigger] s[j]) by {
                if j < init.len() {
                    assert(s[j] == init[j]);
                    assert(has_entry(di, init[j]));
                    let m = choose|m: int| 0 <= m < di.len() && #[trigger] same_entry(di[m], init[j]);
                    assert(same_entry(d[m], s[j]));
                } else {
                    assert(same_entry(d[di.len() as int], s[j]));
                }
            }
            assert forall|k: int| 0 <= k < d.len() implies exists|p: int| 0 <= p < s.len()
                && s[p] == #[trigger] d[k] && !has_entry(s.take(p), s[p]) by {
                if k < di.len() {
                    assert(d[k] == di[k]);
                    let p = choose|p: int| 0 <= p < init.len() && init[p] == #[trigger] di[k] && !has_entry(init.take(p), init[p]);
                    assert(s[p] == init[p]);
                    assert(s.take(p) =~= init.take(p));
                } else {
                    let p = s.len() - 1;
                    assert(s.take(p) =~= init);
                    assert(s[p] == d[k]);
                }
            }
        }
    }
}

/// Is some file of `kept` the same entry as `f`?
fn has_same_entry(kept: &Vec<File>, f: &File) -> (b: bool)
    ensures
        b == has_entry(kept@, *f),
{
    let mut k: usize = 0;
    while k < kept.len()
        invariant
            k <= kept@.len(),
            forall|m: int| 0 <= m < k ==> !same_entry(#[trigger] kept@[m], *f),
        decreases kept@.len() - k,
    {
        if kept[k].eq(f) {
            assert(same_entry(kept@[k as int], *f));
            return true;
        }
        k = k + 1;
    }
    false
}

/// Keeps the first file of each entry (folder and file name) and drops every
/// later file of that entry, wherever it stands in the listing.
pub fn drop_repeated_files(files: Vec<File>) -> (out: Vec<File>)
    ensures
        out@ == first_of_each_entry(files@),
{
    let ghost input = files@;
    let mut out: Vec<File> = Vec::new();
    for f in it: files.into_iter()
        invariant
            it.seq() == input,
            out@ == first_of_each_entry(input.take(it.index())),
    {
        let ghost t = it.index();
        assert(f == input[t]);
        let ghost pre = input.take(t);
        let ghost next = input.take(t + 1);
        assert(next.drop_last() =~= pre);
        assert(next.last() == f);
        proof {
            lemma_first_of_each_entry(pre);
            if has_entry(pre, f) {
                let j = choose|j: int| 0 <= j < pre.len() && #[trigger] same_entry(pre[j], f);
                assert(has_entry(out@, pre[j]));
                let m = choose|m: int| 0 <= m < out@.len() && #[trigger] same_entry(out@[m], pre[j]);
                assert(same_entry(out@[m], f));
            }
            if has_entry(out@, f) {
                let m = choose|m: int| 0 <= m < out@.len() && #[trigger] same_entry(out@[m], f);
                let p = choose|p: int| 0 <= p < pre.len() && pre[p] == #[trigger] out@[m] && !has_entry(pre.take(p), pre[p]);
                assert(same_entry(pre[p], f));
            }
        }
        if !has_same_entry(&out, &f) {
            out.push(f);
        }
    }
    proof {
        assert(input.take(input.len() as int) =~= input);
    }
    out
}

/// The listing that gets downloaded: sorted newest first (stably), then only
/// the first file of each entry (folder and file name). No two files of the
/// result are the same entry, every file of the listing has its entry in the
/// result, each file of the result comes from the listing, and it comes no
/// later in the order than any file of its entry (newest first; a file
/// without a time before all others).
pub fn unique_files_newest_first(files: Vec<File>) -> (out: Vec<File>)
    ensures
        exists|sorted: Seq<File>| is_stable_sort(files@, sorted) && out@ == first_of_each_entry(sorted),
        forall|j: int, k: int| 0 <= j < k < out@.len() ==> !same_entry(#[trigger] out@[j], #[trigger] out@[k]),
        forall|j: int| 0 <= j < files@.len() ==> has_entry(out@, #[trigger] files@[j]),
        forall|k: int| 0 <= k < out@.len() ==> appears_in(files@, #[trigger] out@[k]),
        forall|j: int, k: int|
            #![trigger files@[j], out@[k]]
            0 <= j < files@.len() && 0 <= k < out@.len() && same_entry(files@[j], out@[k]) ==> key_le(
                file_key(out@[k]),
                file_key(files@[j]),
            ),
{
    let ghost input = files@;
    let sorted = sort_newest_first(files);
    let ghost sv = sorted@;
    let out = drop_repeated_files(sorted);
    proof {
        lemma_first_of_each_entry(sv);
        let perm = choose|perm: Seq<int>|
            rearranged(input, sv, perm) && keys_sorted(keys_of(sv)) && keys_stable(keys_of(sv), perm);
        assert forall|j: int| 0 <= j < input.len() implies has_entry(out@, #[trigger] input[j]) by {
            assert(appears_in(sv, input[j]));
            let p = choose|p: int| 0 <= p < sv.len() && sv[p] == input[j];
            assert(has_entry(out@, sv[p]));
        }
        assert forall|k: int| 0 <= k < out@.len() implies appears_in(input, #[trigger] out@[k]) by {
            let p = choose|p: int| 0 <= p < sv.len() && sv[p] == #[trigger] out@[k] && !has_entry(sv.take(p), sv[p]);
            assert(sv[p] == input[perm[p]]);
        }
        assert forall|j: int, k: int|
            0 <= j < input.len() && 0 <= k < out@.len() && same_entry(input[j], out@[k]) implies key_le(
                file_key(out@[k]),
                file_key(input[j]),
            ) by {
            let p = choose|p: int| 0 <= p < sv.len() && sv[p] == #[trigger] out@[k] && !has_entry(sv.take(p), sv[p]);
            assert(appears_in(sv, input[j]));
            let r = choose|r: int| 0 <= r < sv.len() && sv[r] == input[j];
            if r < p {
                assert(sv.take(p)[r] == sv[r]);
                assert(same_entry(sv.take(p)[r], sv[p]));
            }
            if r != p {
                assert(keys_of(sv)[p] == file_key(sv[p]));
                assert(keys_of(sv)[r] == file_key(sv[r]));
                assert(key_le(keys_of(sv)[p], keys_of(sv)[r]));
            }
        }
    }
    out
}

/// The directory of a folder of a course: `<course_dir>/files/<safe folder
/// path>`.
pub open spec fn spec_folder_directory(course_dir: Seq<char>, full_name: Seq<char>) -> Seq<char> {
    course_dir + "/files/"@ + spec_sanitize_folder_name(full_name)
}

/// Where a folder of a course is mirrored.
pub fn folder_directory(course_dir: &str, full_name: &str) -> (r: String)
    ensures
        r@ == spec_folder_directory(course_dir@, full_name@),
        forall|i: int| course_dir@.len() + 7 <= i < r@.len() && (#[trigger] r@[i] as int) < 128 ==> is_ascii_word_char(
            r@[i],
        ) || r@[i] == '/',
{
    let n = sanitize_folder_name(full_name);
    let mut d = to_owned_string(course_dir);
    push_str(&mut d, "/files/");
    push_str(&mut d, n.as_str());
    proof {
        reveal_strlit("/files/");
    }
    assert forall|i: int| course_dir@.len() + 7 <= i < d@.len() && (#[trigger] d@[i] as int) < 128 implies is_ascii_word_char(
        d@[i],
    ) || d@[i] == '/' by {
        assert(d@[i] == n@[i - course_dir@.len() - 7]);
    }
    d
}

/// The index of the first folder with the given identifier.
pub open spec fn first_folder_with_id(folders: Seq<Folder>, folder_id: i32) -> Option<int> {
    if exists|j: int| 0 <= j < folders.len() && folders[j].id == folder_id {
        Some(choose|j: int| 0 <= j < folders.len() && folders[j].id == folder_id
            && forall|k: int| 0 <= k < j ==> folders[k].id != folder_id)
    } else {
        None
    }
}

/// Finds the first folder with the given identifier.
pub fn find_folder(folders: &Vec<Folder>, folder_id: i32) -> (r: Option<usize>)
    ensures
        match r {
            Some(j) => first_folder_with_id(folders@, folder_id) == Some(j as int) && j < folders@.len(),
            None => first_folder_with_id(folders@, folder_id) is None,
        },
{
    let mut j: usize = 0;
    while j < folders.len()
        invariant
            j <= folders@.len(),
            forall|k: int| 0 <= k < j ==> folders@[k].id != folder_id,
        decreases folders@.len() - j,
    {
        if folders[j].id == folder_id {
            let ghost w = choose|w: int| 0 <= w < folders@.len() && folders@[w].id == folder_id
                && forall|k: int| 0 <= k < w ==> folders@[k].id != folder_id;
            assert(0 <= w < folders@.len() && folders@[w].id == folder_id
                && forall|k: int| 0 <= k < w ==> folders@[k].id != folder_id);
            assert(w == j);
            return Some(j);
        }
        j = j + 1;
    }
    None
}

/// What becomes of one file of the listing.
#[derive(Debug)]
pub enum FileStep {
    /// The file is locked for the user; it is skipped, for the given reason.
    Skip { file_name: String, reason: String },
    /// The file is registered under `dest_path` and fetched from `url`;
    /// `modified` is its modification time, where it has one that parses.
    Fetch { file_id: i32, dest_path: String, url: String, modified: Option<Timestamp> },
}

/// The path of a file in its folder: `<folder directory>/<safe display name>`.
pub open spec fn spec_file_destination(course_dir: Seq<char>, full_name: Seq<char>, display_name: Seq<char>) -> Seq<char> {
    spec_folder_directory(course_dir, full_name) + "/"@ + spec_sanitize_file_name(display_name)
}

/// What happens to a file: a locked file is skipped; any other goes to its
/// folder's directory under its safe display name.
pub fn file_step(course_dir: &str, folders: &Vec<Folder>, file: &File) -> (r: FileStep)
    requires
        file.display_name is Some,
        file.locked_for_user ==> file.lock_explaination is Some,
        !file.locked_for_user ==> ({
            &&& first_folder_with_id(folders@, file.folder_id) matches Some(j)
            &&& folders@[j].full_name is Some
        }),
        !file.locked_for_user ==> file.url is Some,
    ensures
        match r {
            FileStep::Skip { file_name, reason } => {
                &&& file.locked_for_user
                &&& file_name@ == spec_sanitize_file_name(file.display_name->0@)
                &&& reason@ == file.lock_explaination->0@
            },
            FileStep::Fetch { file_id, dest_path, url, modified } => {
                let j = first_folder_with_id(folders@, file.folder_id)->0;
                &&& !file.locked_for_user
                &&& file_id == file.id
                &&& dest_path@ == spec_file_destination(course_dir@, folders@[j].full_name->0@, file.display_name->0@)
                &&& url@ == file.url->0@
                &&& modified == file_key(*file)
            },
        },
{
    let display = match &file.display_name {
        Some(d) => d.as_str(),
        None => "",
    };
    let file_name = sanitize_file_name(display);
    if file.locked_for_user {
        let reason = match &file.lock_explaination {
            Some(e) => to_owned_string(e.as_str()),
            None => String::new(),
        };
        return FileStep::Skip { file_name, reason };
    }
    let j = match find_folder(folders, file.folder_id) {
        Some(j) => j,
        None => 0,
    };
    let full_name = match &folders[j].full_name {
        Some(n) => n.as_str(),
        None => "",
    };
    let mut dest_path = folder_directory(course_dir, full_name);
    push_str(&mut dest_path, "/");
    push_str(&mut dest_path, file_name.as_str());
    let url = match &file.url {
        Some(u) => to_owned_string(u.as_str()),
        None => String::new(),
    };
    let modified = file.parsed_modified_at();
    FileStep::Fetch { file_id: file.id, dest_path, url, modified }
}

/// The file order is an order: swapping two files flips the answer, and a
/// file compares equal to itself.
pub proof fn lemma_file_order_flips(a: File, b: File)
    ensures
        file_order(a, b) == Ordering::Less <==> file_order(b, a) == Ordering::Greater,
        file_order(a, b) == Ordering::Equal <==> file_order(b, a) == Ordering::Equal,
        file_order(a, a) == Ordering::Equal,
{
}

/// Sameness of entries is an equivalence.
pub proof fn lemma_same_entry_equivalence(a: File, b: File, c: File)
    ensures
        same_entry(a, a),
        same_entry(a, b) ==> same_entry(b, a),
        same_entry(a, b) && same_entry(b, c) ==> same_entry(a, c),
{
}

} // verus!
