use vstd::prelude::*;

verus! {

/// The pieces of `s` between newline bytes (as `str::split('\n')` gives them).
pub open spec fn split_lines(s: Seq<u8>) -> Seq<Seq<u8>>
    decreases s.len(),
{
    if s.len() == 0 {
        seq![Seq::empty()]
    } else {
        let p = split_lines(s.drop_last());
        if s.last() == 10 {
            p.push(Seq::empty())
        } else {
            p.update(p.len() - 1, p.last().push(s.last()))
        }
    }
}

/// The recent files that a history file lists, the most recent first: the
/// file holds one newline-led record per file, oldest first.
pub open spec fn history_spec(config: Seq<u8>) -> Seq<Seq<u8>> {
    split_lines(config).drop_first().reverse()
}

/// The record of one file in the history file: a newline, then its path.
pub open spec fn record_spec(path: Seq<u8>) -> Seq<u8> {
    seq![10u8] + path
}

/// A history file that lists `paths`, oldest first.
pub open spec fn config_text(paths: Seq<Seq<u8>>) -> Seq<u8>
    decreases paths.len(),
{
    if paths.len() == 0 {
        Seq::empty()
    } else {
        config_text(paths.drop_last()) + record_spec(paths.last())
    }
}

pub open spec fn has_no_newline(s: Seq<u8>) -> bool {
    !s.contains(10u8)
}

pub open spec fn all_without_newline(paths: Seq<Seq<u8>>) -> bool {
    forall|i: int| 0 <= i < paths.len() ==> has_no_newline(#[trigger] paths[i])
}

/// `paths` without any entry equal to `p`, the others in their order.
pub open spec fn without_path(paths: Seq<Seq<u8>>, p: Seq<u8>) -> Seq<Seq<u8>>
    decreases paths.len(),
{
    if paths.len() == 0 {
        paths
    } else if paths[0] == p {
        without_path(paths.drop_first(), p)
    } else {
        seq![paths[0]] + without_path(paths.drop_first(), p)
    }
}

/// The views of a sequence of byte vectors.
pub open spec fn byte_strings(v: Seq<Vec<u8>>) -> Seq<Seq<u8>> {
    v.map_values(|b: Vec<u8>| b@)
}

proof fn lemma_split_nonempty(s: Seq<u8>)
    ensures
        split_lines(s).len() >= 1,
    decreases s.len(),
{
    if s.len() > 0 {
        lemma_split_nonempty(s.drop_last());
    }
}

proof fn lemma_split_newline(x: Seq<u8>)
    ensures
        split_lines(x + seq![10u8]) == split_lines(x).push(Seq::empty()),
{
    assert((x + seq![10u8]).drop_last() =~= x);
}

proof fn lemma_split_plain_suffix(y: Seq<u8>, e: Seq<u8>)
    requires
        has_no_newline(e),
    ensures
        split_lines(y + e).len() == split_lines(y).len(),
        split_lines(y + e) == split_lines(y).update(
            split_lines(y).len() - 1,
            split_lines(y).last() + e,
        ),
    decreases e.len(),
{
    lemma_split_nonempty(y);
    let p = split_lines(y);
    if e.len() == 0 {
        assert(y + e =~= y);
        assert(p.last() + e =~= p.last());
        assert(p.update(p.len() - 1, p.last()) =~= p);
    } else {
        let e0 = e.drop_last();
        assert(!e0.contains(10u8)) by {
            if e0.contains(10u8) {
                let k = choose|k: int| 0 <= k < e0.len() && e0[k] == 10u8;
                assert(e[k] == 10u8);
            }
        }
        lemma_split_plain_suffix(y, e0);
        assert((y + e).drop_last() =~= y + e0);
        assert(e.last() != 10u8) by {
            assert(e[e.len() - 1] == e.last());
        }
        assert((y + e).last() == e.last());
        let q = split_lines(y + e0);
        assert(q.last() == p.last() + e0);
        assert(q.last().push(e.last()) =~= p.last() + e);
        assert(q.update(q.len() - 1, q.last().push(e.last())) =~= p.update(p.len() - 1, p.last() + e));
    }
}

/// Appending the record of a file to a history file puts that file first in
/// the history and leaves the rest as it was.
pub proof fn law_append_is_most_recent(config: Seq<u8>, path: Seq<u8>)
    requires
        has_no_newline(path),
    ensures
        history_spec(config + record_spec(path)) == seq![path] + history_spec(config),
{
    lemma_split_nonempty(config);
    let x = config + seq![10u8];
    assert(config + record_spec(path) =~= x + path);
    lemma_split_newline(config);
    lemma_split_plain_suffix(x, path);
    let p = split_lines(config);
    let q = split_lines(x + path);
    assert(q =~= p.push(path)) by {
        assert(p.push(Seq::<u8>::empty()).last() + path =~= path);
    }
    assert(q.drop_first() =~= p.drop_first().push(path));
    assert(q.drop_first().reverse() =~= seq![path] + p.drop_first().reverse());
}

/// Reading back a history file written from a list of files (oldest first)
/// gives that list, most recent first.
pub proof fn law_history_round_trip(paths: Seq<Seq<u8>>)
    requires
        all_without_newline(paths),
    ensures
        history_spec(config_text(paths)) == paths.reverse(),
    decreases paths.len(),
{
    if paths.len() == 0 {
        assert(config_text(paths) =~= Seq::<u8>::empty());
        assert(split_lines(Seq::<u8>::empty()).drop_first() =~= Seq::<Seq<u8>>::empty());
        assert(paths.reverse() =~= Seq::<Seq<u8>>::empty());
    } else {
        let init = paths.drop_last();
        assert(all_without_newline(init)) by {
            assert forall|i: int| 0 <= i < init.len() implies has_no_newline(#[trigger] init[i]) by {
                assert(init[i] == paths[i]);
            }
        }
        law_history_round_trip(init);
        assert(has_no_newline(paths[paths.len() - 1]));
        law_append_is_most_recent(config_text(init), paths.last());
        assert(seq![paths.last()] + init.reverse() =~= paths.reverse());
    }
}

/// Splits a history file into the files it lists, the most recent first.
pub fn parse_history(config: &[u8]) -> (res: Vec<Vec<u8>>)
    ensures
        byte_strings(res@) == history_spec(config@),
{
    let mut pieces: Vec<Vec<u8>> = Vec::new();
    let mut cur: Vec<u8> = Vec::new();
    let mut i: usize = 0;
    while i < config.len()
        invariant
            i <= config.len(),
            byte_strings(pieces@).push(cur@) == split_lines(config@.take(i as int)),
        decreases config.len() - i,
    {
        assert(config@.take(i + 1).drop_last() =~= config@.take(i as int));
        proof {
            lemma_split_nonempty(config@.take(i as int));
        }
        let ghost before = byte_strings(pieces@);
        if config[i] == 10 {
            let mut done: Vec<u8> = Vec::new();
            std::mem::swap(&mut done, &mut cur);
            pieces.push(done);
            assert(byte_strings(pieces@) =~= before.push(done@));
        } else {
            cur.push(config[i]);
            assert(byte_strings(pieces@) =~= before);
        }
        i = i + 1;
        assert(byte_strings(pieces@).push(cur@) =~= split_lines(config@.take(i as int)));
    }
    let ghost before = byte_strings(pieces@);
    pieces.push(cur);
    assert(config@.take(config@.len() as int) =~= config@);
    let ghost all = byte_strings(pieces@);
    assert(all =~= before.push(cur@));
    let ghost m = pieces@.len();
    let mut res: Vec<Vec<u8>> = Vec::new();
    while pieces.len() > 1
        invariant
            1 <= pieces@.len() <= m,
            byte_strings(pieces@) =~= all.take(pieces@.len() as int),
            byte_strings(res@) =~= all.subrange(pieces@.len() as int, m as int).reverse(),
            all.len() == m,
        decreases pieces@.len(),
    {
        let ghost k: int = pieces@.len() as int;
        let ghost last_view = pieces@[k - 1]@;
        assert(byte_strings(pieces@)[k - 1] == last_view);
        let last = pieces.pop().unwrap();
        let ghost r0 = byte_strings(res@);
        res.push(last);
        assert(byte_strings(res@) =~= r0.push(last_view));
        assert(all[k - 1] == last_view);
        assert(byte_strings(pieces@) =~= all.take(k - 1));
        assert(all.subrange(k, m as int).reverse().push(all[k - 1]) =~= all.subrange(k - 1, m as int).reverse());
    }
    assert(all.subrange(1, m as int) =~= all.drop_first());
    res
}

/// The record of one file in the history file: a newline, then its path.
pub fn history_record(path: &[u8]) -> (res: Vec<u8>)
    ensures
        res@ == record_spec(path@),
{
    let mut res: Vec<u8> = Vec::new();
    res.push(10);
    let mut i: usize = 0;
    while i < path.len()
        invariant
            i <= path.len(),
            res@ == seq![10u8] + path@.take(i as int),
        decreases path.len() - i,
    {
        res.push(path[i]);
        i = i + 1;
        assert(res@ =~= seq![10u8] + path@.take(i as int));
    }
    assert(path@.take(path.len() as int) =~= path@);
    res
}


/// How the history file changes when a file is opened.
#[derive(Debug, PartialEq, Eq)]
pub enum HistoryUpdate {
    /// The file is not in the history: its record is appended.
    Append,
    /// The file is in the history: the history file is emptied and
    /// rewritten with these files (oldest first), then the opened file.
    Rewrite(Vec<Vec<u8>>),
}

/// The files of a history that stay when `opened` is moved to its front,
/// oldest first, in the order in which they are written back.
pub open spec fn kept_spec(history: Seq<Seq<u8>>, opened: Seq<u8>) -> Seq<Seq<u8>> {
    without_path(history, opened).reverse()
}

proof fn lemma_without_path_members(paths: Seq<Seq<u8>>, p: Seq<u8>)
    ensures
        forall|i: int|
            0 <= i < without_path(paths, p).len() ==> #[trigger] without_path(paths, p)[i] != p
                && paths.contains(without_path(paths, p)[i]),
    decreases paths.len(),
{
    if paths.len() > 0 {
        let t = paths.drop_first();
        lemma_without_path_members(t, p);
        let w = without_path(paths, p);
        assert forall|i: int| 0 <= i < w.len() implies #[trigger] w[i] != p && paths.contains(w[i]) by {
            if paths[0] == p {
                assert(w == without_path(t, p));
                assert(without_path(t, p)[i] != p && t.contains(without_path(t, p)[i]));
                let j = choose|j: int| 0 <= j < t.len() && t[j] == w[i];
                assert(paths[j + 1] == w[i]);
            } else if i == 0 {
                assert(paths[0] == w[i]);
            } else {
                assert(w[i] == without_path(t, p)[i - 1]);
                assert(without_path(t, p)[i - 1] != p && t.contains(without_path(t, p)[i - 1]));
                let j = choose|j: int| 0 <= j < t.len() && t[j] == w[i];
                assert(paths[j + 1] == w[i]);
            }
        }
    }
}

/// Opening a file that the history lists moves it to the front of the
/// history: read back, the rewritten history file lists the opened file
/// first and once, then the other files in their former order.
pub proof fn law_reopen_moves_to_front(history: Seq<Seq<u8>>, opened: Seq<u8>)
    requires
        all_without_newline(history),
        has_no_newline(opened),
    ensures
        history_spec(config_text(kept_spec(history, opened).push(opened))) == seq![opened]
            + without_path(history, opened),
        !without_path(history, opened).contains(opened),
{
    let w = without_path(history, opened);
    let kept = kept_spec(history, opened);
    lemma_without_path_members(history, opened);
    let all = kept.push(opened);
    assert(all_without_newline(all)) by {
        assert forall|i: int| 0 <= i < all.len() implies has_no_newline(#[trigger] all[i]) by {
            if i < kept.len() {
                assert(all[i] == w[w.len() - 1 - i]);
                let j = choose|j: int| 0 <= j < history.len() && history[j] == w[w.len() - 1 - i];
                assert(has_no_newline(history[j]));
            }
        }
    }
    law_history_round_trip(all);
    assert(all.reverse() =~= seq![opened] + w);
    if w.contains(opened) {
        let k = choose|k: int| 0 <= k < w.len() && w[k] == opened;
        assert(w[k] != opened);
    }
}

/// Whether two byte strings are equal.
pub fn bytes_equal(a: &[u8], b: &[u8]) -> (res: bool)
    ensures
        res == (a@ == b@),
{
    if a.len() != b.len() {
        return false;
    }
    let mut i: usize = 0;
    while i < a.len()
        invariant
            i <= a.len() == b.len(),
            a@.take(i as int) == b@.take(i as int),
        decreases a.len() - i,
    {
        if a[i] != b[i] {
            assert(a@[i as int] != b@[i as int]);
            return false;
        }
        i = i + 1;
        assert(a@.take(i as int) =~= b@.take(i as int)) by {
            assert(a@.take(i - 1) == b@.take(i - 1));
            assert forall|j: int| 0 <= j < i implies a@.take(i as int)[j] == b@.take(i as int)[j] by {
                if j < i - 1 {
                    assert(a@.take(i - 1)[j] == b@.take(i - 1)[j]);
                }
            }
        }
    }
    assert(a@ =~= a@.take(i as int));
    assert(b@ =~= b@.take(i as int));
    true
}

fn copy_bytes(a: &[u8]) -> (res: Vec<u8>)
    ensures
        res@ == a@,
{
    let mut res: Vec<u8> = Vec::new();
    let mut i: usize = 0;
    while i < a.len()
        invariant
            i <= a.len(),
            res@ == a@.take(i as int),
        decreases a.len() - i,
    {
        res.push(a[i]);
        i = i + 1;
        assert(res@ =~= a@.take(i as int));
    }
    assert(a@.take(i as int) =~= a@);
    res
}

/// Decides how the history file changes when `opened` is opened, given the
/// history (most recent first).
pub fn plan_history_update(history: &Vec<Vec<u8>>, opened: &[u8]) -> (res: HistoryUpdate)
    ensures
        !byte_strings(history@).contains(opened@) ==> res == HistoryUpdate::Append,
        byte_strings(history@).contains(opened@) ==> (res matches HistoryUpdate::Rewrite(kept)
            && byte_strings(kept@) == kept_spec(byte_strings(history@), opened@)),
{
    let ghost h = byte_strings(history@);
    let n = history.len();
    let mut found = false;
    let mut k: usize = n;
    let mut kept: Vec<Vec<u8>> = Vec::new();
    while k > 0
        invariant
            n == history@.len() == h.len(),
            h == byte_strings(history@),
            k <= n,
            found == h.subrange(k as int, n as int).contains(opened@),
            byte_strings(kept@) == without_path(h.subrange(k as int, n as int), opened@).reverse(),
        decreases k,
    {
        k = k - 1;
        let ghost tail = h.subrange(k + 1, n as int);
        let ghost s = h.subrange(k as int, n as int);
        assert(s.drop_first() =~= tail);
        assert(s[0] == history@[k as int]@);
        let same = bytes_equal(history[k].as_slice(), opened);
        let ghost before = byte_strings(kept@);
        if same {
            found = true;
            assert(s.contains(opened@)) by {
                assert(s[0] == opened@);
            }
        } else {
            let copy = copy_bytes(history[k].as_slice());
            kept.push(copy);
            assert(byte_strings(kept@) =~= before.push(copy@));
            assert((seq![s[0]] + without_path(tail, opened@)).reverse() =~= without_path(tail, opened@).reverse().push(s[0]));
            assert(s.contains(opened@) == tail.contains(opened@)) by {
                if s.contains(opened@) {
                    let j = choose|j: int| 0 <= j < s.len() && s[j] == opened@;
                    assert(j != 0);
                    assert(tail[j - 1] == opened@);
                }
                if tail.contains(opened@) {
                    let j = choose|j: int| 0 <= j < tail.len() && tail[j] == opened@;
                    assert(s[j + 1] == opened@);
                }
            }
        }
    }
    assert(h.subrange(0, n as int) =~= h);
    if found {
        HistoryUpdate::Rewrite(kept)
    } else {
        HistoryUpdate::Append
    }
}


/// `/home/`
pub open spec fn home_prefix() -> Seq<u8> {
    seq![47u8, 104u8, 111u8, 109u8, 101u8, 47u8]
}

/// `/.config/writeST`
pub open spec fn config_dir_suffix() -> Seq<u8> {
    seq![47u8, 46u8, 99u8, 111u8, 110u8, 102u8, 105u8, 103u8, 47u8, 119u8, 114u8, 105u8, 116u8, 101u8, 83u8, 84u8]
}

/// `/recent_files`
pub open spec fn history_file_name() -> Seq<u8> {
    seq![47u8, 114u8, 101u8, 99u8, 101u8, 110u8, 116u8, 95u8, 102u8, 105u8, 108u8, 101u8, 115u8]
}

fn append_bytes(out: &mut Vec<u8>, src: &[u8])
    ensures
        final(out)@ == old(out)@ + src@,
{
    let mut i: usize = 0;
    while i < src.len()
        invariant
            i <= src.len(),
            out@ == old(out)@ + src@.take(i as int),
        decreases src.len() - i,
    {
        out.push(src[i]);
        i = i + 1;
        assert(out@ =~= old(out)@ + src@.take(i as int));
    }
    assert(src@.take(i as int) =~= src@);
}

/// The directory that holds the user's settings: `/home/<user>/.config/writeST`.
pub fn config_dir(user: &[u8]) -> (res: Vec<u8>)
    ensures
        res@ == home_prefix() + user@ + config_dir_suffix(),
{
    let mut res: Vec<u8> = Vec::new();
    let home: [u8; 6] = [47, 104, 111, 109, 101, 47];
    append_bytes(&mut res, &home);
    append_bytes(&mut res, user);
    let suffix: [u8; 16] = [47, 46, 99, 111, 110, 102, 105, 103, 47, 119, 114, 105, 116, 101, 83, 84];
    append_bytes(&mut res, &suffix);
    assert(home@ =~= home_prefix());
    assert(suffix@ =~= config_dir_suffix());
    res
}

/// The history file of the user: `/home/<user>/.config/writeST/recent_files`.
pub fn config_file(user: &[u8]) -> (res: Vec<u8>)
    ensures
        res@ == home_prefix() + user@ + config_dir_suffix() + history_file_name(),
{
    let mut res = config_dir(user);
    let name: [u8; 13] = [47, 114, 101, 99, 101, 110, 116, 95, 102, 105, 108, 101, 115];
    append_bytes(&mut res, &name);
    assert(name@ =~= history_file_name());
    res
}

} // verus!
