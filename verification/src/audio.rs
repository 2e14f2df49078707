//! Reminder sounds: the list of sound files offered, the lookup of a
//! built-in recording, and the search for a chunk in a RIFF (WAV) file.
use vstd::prelude::*;
use crate::text::{chars_equal, chars_equal_str, chars_of, string_of, sub_chars, views};

verus! {

broadcast use vstd::seq_lib::group_to_multiset_ensures;

// ---------------------------------------------------------------------
// RIFF chunks
// ---------------------------------------------------------------------

/// The little-endian 32-bit number stored at `data[i..i + 4]`.
pub open spec fn le_u32(data: Seq<u8>, i: int) -> int {
    data[i] + data[i + 1] * 256 + data[i + 2] * 65536 + data[i + 3] * 16777216
}

/// Walks the chunk headers from `idx`: each header is a four-byte tag and a
/// four-byte little-endian size, the chunk body following.  The result is
/// the position of the first header whose tag is `tag`.
pub open spec fn chunk_from(data: Seq<u8>, tag: Seq<u8>, idx: int) -> Option<int>
    decreases (if 0 <= idx <= data.len() { data.len() - idx } else { 0 }),
{
    if idx < 0 || idx + 8 > data.len() {
        None
    } else if data.subrange(idx, idx + 4) == tag {
        Some(idx)
    } else {
        chunk_from(data, tag, idx + 8 + le_u32(data, idx + 4))
    }
}

/// The position of the first chunk tagged `tag` after the 12-byte RIFF
/// header.
pub open spec fn subchunk_spec(data: Seq<u8>, tag: Seq<u8>) -> Option<int> {
    if data.len() < 12 {
        None
    } else {
        chunk_from(data, tag, 12)
    }
}

/// Finds the first chunk tagged `tag` in a RIFF file, walking the chunk
/// headers that follow the 12-byte file header.
pub fn find_subchunk(data: &[u8], tag: &[u8; 4]) -> (res: Option<usize>)
    ensures
        match res {
            Some(i) => subchunk_spec(data@, tag@) == Some(i as int),
            None => subchunk_spec(data@, tag@) is None,
        },
{
    let n: usize = data.len();
    if n < 12 {
        return None;
    }
    let mut idx: usize = 12;
    while idx <= n - 8
        invariant
            12 <= idx <= n,
            n == data@.len(),
            subchunk_spec(data@, tag@) == chunk_from(data@, tag@, idx as int),
        decreases n - idx,
    {
        if data[idx] == tag[0] && data[idx + 1] == tag[1] && data[idx + 2] == tag[2] && data[idx
            + 3] == tag[3] {
            assert(data@.subrange(idx as int, idx + 4) =~= tag@);
            return Some(idx);
        }
        proof {
            if data@.subrange(idx as int, idx + 4) == tag@ {
                assert(data@.subrange(idx as int, idx + 4)[0] == tag@[0]);
                assert(data@.subrange(idx as int, idx + 4)[1] == tag@[1]);
                assert(data@.subrange(idx as int, idx + 4)[2] == tag@[2]);
                assert(data@.subrange(idx as int, idx + 4)[3] == tag@[3]);
            }
        }
        let size: u64 = (data[idx + 4] as u64) + (data[idx + 5] as u64) * 256 + (data[idx
            + 6] as u64) * 65536 + (data[idx + 7] as u64) * 16777216;
        assert(size == le_u32(data@, idx + 4));
        let rest: u64 = (n - idx - 8) as u64;
        if size > rest {
            assert(chunk_from(data@, tag@, idx + 8 + size) is None);
            return None;
        }
        idx = idx + 8 + size as usize;
    }
    None
}

// ---------------------------------------------------------------------
// Built-in recordings
// ---------------------------------------------------------------------

/// The bytes of the first built-in recording named `name`.
pub fn get_builtin_bytes<'a>(files: &'a [(&'a str, &'a [u8])], name: &str) -> (res: Option<
    &'a [u8],
>)
    ensures
        match res {
            Some(b) => exists|i: int|
                0 <= i < files@.len() && (#[trigger] files@[i]).0@ == name@ && b == files@[i].1
                    && forall|j: int| 0 <= j < i ==> (#[trigger] files@[j]).0@ != name@,
            None => forall|i: int| 0 <= i < files@.len() ==> (#[trigger] files@[i]).0@ != name@,
        },
{
    let want = chars_of(name);
    let mut i: usize = 0;
    while i < files.len()
        invariant
            i <= files@.len(),
            want@ == name@,
            forall|j: int| 0 <= j < i ==> (#[trigger] files@[j]).0@ != name@,
        decreases files.len() - i,
    {
        let entry = &files[i];
        let have = chars_of(entry.0);
        if chars_equal(&have, &want) {
            assert(files@[i as int].0@ == name@);
            return Some(entry.1);
        }
        i = i + 1;
    }
    None
}

// ---------------------------------------------------------------------
// The sound file list
// ---------------------------------------------------------------------

/// A file name with the extension `wav`: at least one character, then
/// `.wav`.
pub open spec fn wav_name(s: Seq<char>) -> bool {
    s.len() >= 5 && s.subrange(s.len() - 4, s.len() as int) == ".wav"@
}

/// Whether the file name has the extension `wav`.
pub fn is_wav_name(name: &Vec<char>) -> (res: bool)
    ensures
        res == wav_name(name@),
{
    let n: usize = name.len();
    if n < 5 {
        return false;
    }
    let tail = sub_chars(name, n - 4, n);
    chars_equal_str(&tail, ".wav")
}

/// The built-in names, then each found name that is a `wav` file not yet
/// listed, in the order found.
pub open spec fn audio_list(builtin: Seq<Seq<char>>, found: Seq<Seq<char>>) -> Seq<Seq<char>>
    decreases found.len(),
{
    if found.len() == 0 {
        builtin
    } else {
        let prev = audio_list(builtin, found.drop_last());
        let f = found.last();
        if wav_name(f) && !prev.contains(f) {
            prev.push(f)
        } else {
            prev
        }
    }
}

/// `a` comes strictly before `b` in code-point order (the order of their
/// UTF-8 bytes).
pub open spec fn text_lt(a: Seq<char>, b: Seq<char>) -> bool
    decreases a.len(),
{
    if a.len() == 0 {
        b.len() > 0
    } else if b.len() == 0 {
        false
    } else if a[0] != b[0] {
        (a[0] as int) < (b[0] as int)
    } else {
        text_lt(a.drop_first(), b.drop_first())
    }
}

pub open spec fn text_le(a: Seq<char>, b: Seq<char>) -> bool {
    a == b || text_lt(a, b)
}

/// Each text comes no later than the ones after it.
pub open spec fn sorted_texts(s: Seq<Seq<char>>) -> bool {
    forall|i: int, j: int| 0 <= i < j < s.len() ==> text_le(#[trigger] s[i], #[trigger] s[j])
}

pub proof fn lemma_text_lt_transitive(a: Seq<char>, b: Seq<char>, c: Seq<char>)
    requires
        text_lt(a, b),
        text_lt(b, c),
    ensures
        text_lt(a, c),
    decreases a.len(),
{
    if a.len() > 0 && b.len() > 0 && c.len() > 0 {
        if a[0] == b[0] && b[0] == c[0] {
            lemma_text_lt_transitive(a.drop_first(), b.drop_first(), c.drop_first());
        }
    }
}

/// Two different texts are ordered one way or the other.
pub proof fn lemma_text_lt_total(a: Seq<char>, b: Seq<char>)
    requires
        a != b,
    ensures
        text_lt(a, b) || text_lt(b, a),
    decreases a.len(),
{
    if a.len() == 0 {
        assert(b.len() > 0) by {
            if b.len() == 0 {
                assert(a =~= b);
            }
        }
    } else if b.len() > 0 && a[0] == b[0] {
        if a.drop_first() == b.drop_first() {
            assert(a =~= seq![a[0]] + a.drop_first());
            assert(b =~= seq![b[0]] + b.drop_first());
        }
        lemma_text_lt_total(a.drop_first(), b.drop_first());
    }
}

/// Whether `a` comes strictly before `b` in code-point order.
pub fn text_less(a: &Vec<char>, b: &Vec<char>) -> (res: bool)
    ensures
        res == text_lt(a@, b@),
{
    let mut i: usize = 0;
    assert(a@.skip(0) =~= a@);
    assert(b@.skip(0) =~= b@);
    while i < a.len() && i < b.len()
        invariant
            i <= a.len(),
            i <= b.len(),
            text_lt(a@, b@) == text_lt(a@.skip(i as int), b@.skip(i as int)),
        decreases a.len() - i,
    {
        let x = a[i];
        let y = b[i];
        assert(a@.skip(i as int)[0] == x);
        assert(b@.skip(i as int)[0] == y);
        if x != y {
            return x < y;
        }
        assert(a@.skip(i as int).drop_first() =~= a@.skip(i + 1));
        assert(b@.skip(i as int).drop_first() =~= b@.skip(i + 1));
        i = i + 1;
    }
    i == a.len() && i < b.len()
}

fn contains_text(list: &Vec<Vec<char>>, x: &Vec<char>) -> (res: bool)
    ensures
        res == views(list@).contains(x@),
{
    let mut i: usize = 0;
    while i < list.len()
        invariant
            i <= list.len(),
            forall|j: int| 0 <= j < i ==> views(list@)[j] != x@,
        decreases list.len() - i,
    {
        if chars_equal(&list[i], x) {
            assert(views(list@)[i as int] == x@);
            return true;
        }
        i = i + 1;
    }
    false
}

/// Sorts texts by code-point order.
fn sort_texts(items: Vec<Vec<char>>) -> (res: Vec<Vec<char>>)
    ensures
        sorted_texts(views(res@)),
        views(res@).to_multiset() == views(items@).to_multiset(),
{
    let mut out: Vec<Vec<char>> = Vec::new();
    let mut i: usize = 0;
    while i < items.len()
        invariant
            i <= items.len(),
            sorted_texts(views(out@)),
            views(out@).to_multiset() == views(items@).take(i as int).to_multiset(),
        decreases items.len() - i,
    {
        let x = items[i].clone();
        assert(x@ == items@[i as int]@);
        let mut k: usize = 0;
        while k < out.len() && !text_less(&x, &out[k])
            invariant
                k <= out.len(),
                forall|j: int| 0 <= j < k ==> !text_lt(x@, #[trigger] views(out@)[j]),
            decreases out.len() - k,
        {
            k = k + 1;
        }
        let ghost o = views(out@);
        proof {
            if k < out.len() {
                assert(text_lt(x@, o[k as int]));
            }
        }
        out.insert(k, x);
        let ghost n = views(out@);
        proof {
            assert(n =~= o.insert(k as int, x@));
            assert forall|p: int, q: int| 0 <= p < q < n.len() implies text_le(
                #[trigger] n[p],
                #[trigger] n[q],
            ) by {
                if q < k {
                    assert(n[p] == o[p] && n[q] == o[q]);
                } else if p > k {
                    assert(n[p] == o[p - 1] && n[q] == o[q - 1]);
                } else if p < k && q > k {
                    assert(n[p] == o[p] && n[q] == o[q - 1]);
                } else if q == k {
                    assert(n[p] == o[p]);
                    if o[p] != x@ {
                        lemma_text_lt_total(o[p], x@);
                    }
                } else {
                    assert(p == k);
                    assert(n[q] == o[q - 1]);
                    if q - 1 > k {
                        assert(text_le(o[k as int], o[q - 1]));
                        if o[k as int] != o[q - 1] {
                            lemma_text_lt_transitive(x@, o[k as int], o[q - 1]);
                        }
                    }
                }
            }
            assert(n.remove(k as int) =~= o);
            assert(views(items@).take(i + 1) =~= views(items@).take(i as int).push(x@));
            assert(n.to_multiset().count(x@) > 0);
            assert(n.to_multiset() =~= o.to_multiset().insert(x@));
        }
        i = i + 1;
    }
    assert(views(items@).take(items.len() as int) =~= views(items@));
    out
}

/// The sound files offered: the built-in names and the found `wav` files
/// not already listed, sorted by code-point order.
pub fn collect_audio_files(builtin: &Vec<String>, found: &Vec<String>) -> (res: Vec<String>)
    ensures
        sorted_texts(res@.map_values(|s: String| s@)),
        res@.map_values(|s: String| s@).to_multiset() == audio_list(
            builtin@.map_values(|s: String| s@),
            found@.map_values(|s: String| s@),
        ).to_multiset(),
        forall|i: int|
            0 <= i < builtin@.len() ==> res@.map_values(|s: String| s@).contains(
                (#[trigger] builtin@[i])@,
            ),
        forall|j: int|
            0 <= j < found@.len() && wav_name((#[trigger] found@[j])@) ==> res@.map_values(
                |s: String| s@,
            ).contains(found@[j]@),
        forall|k: int|
            0 <= k < res@.len() ==> builtin@.map_values(|s: String| s@).contains((#[trigger] res@[k])@)
                || (wav_name(res@[k]@) && found@.map_values(|s: String| s@).contains(res@[k]@)),
{
    let ghost bv = builtin@.map_values(|s: String| s@);
    let ghost fv = found@.map_values(|s: String| s@);
    let mut files: Vec<Vec<char>> = Vec::new();
    let mut i: usize = 0;
    while i < builtin.len()
        invariant
            i <= builtin.len(),
            bv == builtin@.map_values(|s: String| s@),
            views(files@) == bv.take(i as int),
        decreases builtin.len() - i,
    {
        let ghost before = views(files@);
        files.push(chars_of(builtin[i].as_str()));
        assert(bv[i as int] == builtin@[i as int]@);
        assert(views(files@) =~= before.push(bv[i as int]));
        assert(bv.take(i + 1) =~= bv.take(i as int).push(bv[i as int]));
        i = i + 1;
        assert(views(files@) =~= bv.take(i as int));
    }
    assert(bv.take(builtin.len() as int) =~= bv);
    let mut j: usize = 0;
    while j < found.len()
        invariant
            j <= found.len(),
            fv == found@.map_values(|s: String| s@),
            views(files@) == audio_list(bv, fv.take(j as int)),
        decreases found.len() - j,
    {
        let f = chars_of(found[j].as_str());
        assert(fv.take(j + 1).drop_last() =~= fv.take(j as int));
        assert(fv.take(j + 1).last() == f@);
        if is_wav_name(&f) && !contains_text(&files, &f) {
            let ghost before = views(files@);
            files.push(f);
            assert(views(files@) =~= before.push(fv[j as int]));
        }
        j = j + 1;
    }
    assert(fv.take(found.len() as int) =~= fv);
    let sorted = sort_texts(files);
    let mut res: Vec<String> = Vec::new();
    let mut k: usize = 0;
    while k < sorted.len()
        invariant
            k <= sorted.len(),
            res@.map_values(|s: String| s@) == views(sorted@).take(k as int),
        decreases sorted.len() - k,
    {
        let ghost before = res@.map_values(|s: String| s@);
        res.push(string_of(&sorted[k]));
        assert(views(sorted@)[k as int] == sorted@[k as int]@);
        assert(res@.map_values(|s: String| s@) =~= before.push(views(sorted@)[k as int]));
        assert(views(sorted@).take(k + 1) =~= views(sorted@).take(k as int).push(
            views(sorted@)[k as int],
        ));
        k = k + 1;
        assert(res@.map_values(|s: String| s@) =~= views(sorted@).take(k as int));
    }
    assert(views(sorted@).take(sorted.len() as int) =~= views(sorted@));
    proof {
        let rv = res@.map_values(|s: String| s@);
        let l = audio_list(bv, fv);
        lemma_audio_list_members(bv, fv);
        assert forall|s: Seq<char>| rv.contains(s) <==> l.contains(s) by {
            assert(rv.to_multiset().count(s) == l.to_multiset().count(s));
        }
        assert forall|i: int| 0 <= i < builtin@.len() implies rv.contains(
            (#[trigger] builtin@[i])@,
        ) by {
            assert(bv[i] == builtin@[i]@);
            assert(l.contains(bv[i]));
        }
        assert forall|j: int| 0 <= j < found@.len() && wav_name((#[trigger] found@[j])@) implies rv.contains(
            found@[j]@,
        ) by {
            assert(fv[j] == found@[j]@);
            assert(l.contains(fv[j]));
        }
        assert forall|k: int| 0 <= k < res@.len() implies bv.contains((#[trigger] res@[k])@) || (
        wav_name(res@[k]@) && fv.contains(res@[k]@)) by {
            assert(rv[k] == res@[k]@);
            assert(rv.contains(rv[k]));
            assert(l.contains(rv[k]));
        }
    }
    res
}


/// The offered list holds every built-in name and every found `wav` name,
/// and nothing else.
pub proof fn lemma_audio_list_members(builtin: Seq<Seq<char>>, found: Seq<Seq<char>>)
    ensures
        forall|i: int| 0 <= i < builtin.len() ==> audio_list(builtin, found).contains(#[trigger] builtin[i]),
        forall|j: int|
            0 <= j < found.len() && wav_name(#[trigger] found[j]) ==> audio_list(builtin, found).contains(
                found[j],
            ),
        forall|s: Seq<char>|
            #[trigger] audio_list(builtin, found).contains(s) ==> builtin.contains(s) || (wav_name(s)
                && found.contains(s)),
    decreases found.len(),
{
    let l = audio_list(builtin, found);
    if found.len() == 0 {
        assert forall|i: int| 0 <= i < builtin.len() implies l.contains(#[trigger] builtin[i]) by {
            assert(l[i] == builtin[i]);
        }
    } else {
        let init = found.drop_last();
        lemma_audio_list_members(builtin, init);
        let prev = audio_list(builtin, init);
        let f = found.last();
        assert forall|i: int| 0 <= i < builtin.len() implies l.contains(#[trigger] builtin[i]) by {
            assert(prev.contains(builtin[i]));
            let k = choose|k: int| 0 <= k < prev.len() && prev[k] == builtin[i];
            if wav_name(f) && !prev.contains(f) {
                assert(l[k] == builtin[i]);
            }
        }
        assert forall|j: int| 0 <= j < found.len() && wav_name(#[trigger] found[j]) implies l.contains(
            found[j],
        ) by {
            if j < found.len() - 1 {
                assert(init[j] == found[j]);
                assert(prev.contains(found[j]));
                let k = choose|k: int| 0 <= k < prev.len() && prev[k] == found[j];
                if wav_name(f) && !prev.contains(f) {
                    assert(l[k] == found[j]);
                }
            } else {
                if !prev.contains(f) {
                    assert(l[l.len() - 1] == f);
                }
            }
        }
        assert forall|s: Seq<char>| #[trigger] l.contains(s) implies builtin.contains(s) || (wav_name(s)
            && found.contains(s)) by {
            let k = choose|k: int| 0 <= k < l.len() && l[k] == s;
            if k < prev.len() {
                assert(prev[k] == s);
                assert(prev.contains(s));
                if !builtin.contains(s) {
                    let m = choose|m: int| 0 <= m < init.len() && init[m] == s;
                    assert(found[m] == s);
                }
            } else {
                assert(s == f);
                assert(found[found.len() - 1] == s);
            }
        }
    }
}

} // verus!
