//! What a disk holds after each change to the store.
use crate::serve::{id_char, is_run_id};
use crate::store::{
    after_op, after_ops, below, content, delete_ops, in_flight, index_path, index_rows, index_text,
    leaked, listed, marker_path, meta_ops, meta_path, meta_tmp_path, output_path, path_join,
    record_ops, run_dir, running_dir, start_ops, without, Disk, IndexLine, Marker, Op, RunView,
};
use crate::store_laws::{
    law_delete_takes_only_the_run, law_index_reads_back, law_record_adds_one_line, lemma_line_bytes,
    one_line, whole_lines,
};
use vstd::prelude::*;
use vstd::utf8::{
    decode_utf8, decode_utf8_encode_utf8, encode_utf8, encode_utf8_decode_utf8,
    encode_utf8_valid_utf8, is_ascii_chars_encode_utf8, valid_utf8,
};

verus! {

// ---------------------------------------------------------------- paths --

/// `root` with the separator that goes before what lies below it.
spec fn below_root(root: Seq<u8>) -> Seq<u8> {
    if root.len() == 0 || root.last() == 47u8 {
        root
    } else {
        root.push(47u8)
    }
}

proof fn lemma_literals()
    ensures
        encode_utf8("runs"@) == seq![114u8, 117, 110, 115],
        encode_utf8("running"@) == seq![114u8, 117, 110, 110, 105, 110, 103],
        encode_utf8("index.jsonl"@) == seq![105u8, 110, 100, 101, 120, 46, 106, 115, 111, 110, 108],
        encode_utf8("meta.json"@) == seq![109u8, 101, 116, 97, 46, 106, 115, 111, 110],
        encode_utf8("meta.json.tmp"@) == seq![
            109u8,
            101,
            116,
            97,
            46,
            106,
            115,
            111,
            110,
            46,
            116,
            109,
            112,
        ],
        encode_utf8("output.log"@) == seq![111u8, 117, 116, 112, 117, 116, 46, 108, 111, 103],
{
    reveal_strlit("runs");
    reveal_strlit("running");
    reveal_strlit("index.jsonl");
    reveal_strlit("meta.json");
    reveal_strlit("meta.json.tmp");
    reveal_strlit("output.log");
    is_ascii_chars_encode_utf8("runs"@);
    is_ascii_chars_encode_utf8("running"@);
    is_ascii_chars_encode_utf8("index.jsonl"@);
    is_ascii_chars_encode_utf8("meta.json"@);
    is_ascii_chars_encode_utf8("meta.json.tmp"@);
    is_ascii_chars_encode_utf8("output.log"@);
    assert(encode_utf8("runs"@) =~= seq![114u8, 117, 110, 115]);
    assert(encode_utf8("running"@) =~= seq![114u8, 117, 110, 110, 105, 110, 103]);
    assert(encode_utf8("index.jsonl"@) =~= seq![
        105u8,
        110,
        100,
        101,
        120,
        46,
        106,
        115,
        111,
        110,
        108,
    ]);
    assert(encode_utf8("meta.json"@) =~= seq![109u8, 101, 116, 97, 46, 106, 115, 111, 110]);
    assert(encode_utf8("meta.json.tmp"@) =~= seq![
        109u8,
        101,
        116,
        97,
        46,
        106,
        115,
        111,
        110,
        46,
        116,
        109,
        112,
    ]);
    assert(encode_utf8("output.log"@) =~= seq![111u8, 117, 116, 112, 117, 116, 46, 108, 111, 103]);
}

proof fn lemma_id_bytes(id: Seq<char>)
    requires
        is_run_id(id),
    ensures
        encode_utf8(id).len() == id.len(),
        forall|k: int| 0 <= k < id.len() ==> #[trigger] encode_utf8(id)[k] == id[k] as u8,
        forall|k: int| 0 <= k < id.len() ==> #[trigger] encode_utf8(id)[k] != 47u8,
{
    assert forall|k: int| 0 <= k < id.len() implies '\0' <= #[trigger] id[k] <= '\u{7f}' by {
        assert(id_char(id[k]));
    }
    is_ascii_chars_encode_utf8(id);
    assert forall|k: int| 0 <= k < id.len() implies #[trigger] encode_utf8(id)[k] != 47u8 by {
        assert(id_char(id[k]));
        assert(encode_utf8(id)[k] == id[k] as u8);
    }
}

/// The tails of a run's paths below the root.
spec fn run_tail(id: Seq<char>) -> Seq<u8> {
    encode_utf8("runs"@).push(47u8) + encode_utf8(id)
}

spec fn marker_tail(id: Seq<char>) -> Seq<u8> {
    encode_utf8("running"@).push(47u8) + encode_utf8(id)
}

proof fn lemma_paths(root: Seq<u8>, id: Seq<char>)
    requires
        is_run_id(id),
    ensures
        run_dir(root, id) == below_root(root) + run_tail(id),
        marker_path(root, id) == below_root(root) + marker_tail(id),
        index_path(root) == below_root(root) + encode_utf8("index.jsonl"@),
        meta_path(root, id) == below_root(root) + (run_tail(id).push(47u8) + encode_utf8(
            "meta.json"@,
        )),
        meta_tmp_path(root, id) == below_root(root) + (run_tail(id).push(47u8) + encode_utf8(
            "meta.json.tmp"@,
        )),
        output_path(root, id) == below_root(root) + (run_tail(id).push(47u8) + encode_utf8(
            "output.log"@,
        )),
{
    lemma_literals();
    lemma_id_bytes(id);
    let ib = encode_utf8(id);
    let runs = path_join(root, encode_utf8("runs"@));
    assert(runs =~= below_root(root) + encode_utf8("runs"@));
    assert(runs.last() == 115u8);
    assert(ib[0] != 47u8);
    let dir = path_join(runs, ib);
    assert(dir =~= below_root(root) + run_tail(id));
    assert(dir.last() == ib[ib.len() - 1]);
    assert(meta_path(root, id) =~= below_root(root) + (run_tail(id).push(47u8) + encode_utf8(
        "meta.json"@,
    )));
    assert(meta_tmp_path(root, id) =~= below_root(root) + (run_tail(id).push(47u8) + encode_utf8(
        "meta.json.tmp"@,
    )));
    assert(output_path(root, id) =~= below_root(root) + (run_tail(id).push(47u8) + encode_utf8(
        "output.log"@,
    )));
    let running = path_join(root, encode_utf8("running"@));
    assert(running =~= below_root(root) + encode_utf8("running"@));
    assert(running.last() == 103u8);
    assert(path_join(running, ib) =~= below_root(root) + marker_tail(id));
    assert(index_path(root) =~= below_root(root) + encode_utf8("index.jsonl"@));
}

/// Where things lie below the root: the index beside `runs` and `running`,
/// each run's record and output in a directory of its own, and its marker
/// among the others.
pub proof fn law_layout(root: Seq<u8>, id: Seq<char>)
    requires
        root.len() > 0,
        root.last() != 47,
        is_run_id(id),
    ensures
        index_path(root) == root + encode_utf8("/index.jsonl"@),
        run_dir(root, id) == root + encode_utf8("/runs/"@) + encode_utf8(id),
        meta_path(root, id) == root + encode_utf8("/runs/"@) + encode_utf8(id) + encode_utf8(
            "/meta.json"@,
        ),
        output_path(root, id) == root + encode_utf8("/runs/"@) + encode_utf8(id) + encode_utf8(
            "/output.log"@,
        ),
        running_dir(root) == root + encode_utf8("/running"@),
        marker_path(root, id) == root + encode_utf8("/running/"@) + encode_utf8(id),
{
    lemma_literals();
    lemma_id_bytes(id);
    lemma_paths(root, id);
    reveal_strlit("/index.jsonl");
    reveal_strlit("/runs/");
    reveal_strlit("/meta.json");
    reveal_strlit("/output.log");
    reveal_strlit("/running");
    reveal_strlit("/running/");
    is_ascii_chars_encode_utf8("/index.jsonl"@);
    is_ascii_chars_encode_utf8("/runs/"@);
    is_ascii_chars_encode_utf8("/meta.json"@);
    is_ascii_chars_encode_utf8("/output.log"@);
    is_ascii_chars_encode_utf8("/running"@);
    is_ascii_chars_encode_utf8("/running/"@);
    let slash = seq![47u8];
    assert(encode_utf8("/index.jsonl"@) =~= slash + encode_utf8("index.jsonl"@));
    assert(encode_utf8("/runs/"@) =~= slash + encode_utf8("runs"@) + slash);
    assert(encode_utf8("/meta.json"@) =~= slash + encode_utf8("meta.json"@));
    assert(encode_utf8("/output.log"@) =~= slash + encode_utf8("output.log"@));
    assert(encode_utf8("/running"@) =~= slash + encode_utf8("running"@));
    assert(encode_utf8("/running/"@) =~= slash + encode_utf8("running"@) + slash);
    assert(index_path(root) =~= root + encode_utf8("/index.jsonl"@));
    assert(run_dir(root, id) =~= root + encode_utf8("/runs/"@) + encode_utf8(id));
    assert(meta_path(root, id) =~= root + encode_utf8("/runs/"@) + encode_utf8(id) + encode_utf8(
        "/meta.json"@,
    ));
    assert(output_path(root, id) =~= root + encode_utf8("/runs/"@) + encode_utf8(id) + encode_utf8(
        "/output.log"@,
    ));
    assert(running_dir(root) =~= root + encode_utf8("/running"@));
    assert(marker_path(root, id) =~= root + encode_utf8("/running/"@) + encode_utf8(id));
}

/// A part is joined to a path with one separator, whether or not the path
/// ends with one; an absolute part stands alone.
pub proof fn law_joining(base: Seq<u8>, part: Seq<u8>)
    requires
        base.len() > 0,
        part.len() > 0,
    ensures
        part[0] == 47 ==> path_join(base, part) == part,
        part[0] != 47 && base.last() == 47 ==> path_join(base, part) == base + part,
        part[0] != 47 && base.last() != 47 ==> path_join(base, part) == base + seq![47u8] + part,
{
    assert(base.push(47u8) + part =~= base + seq![47u8] + part);
}

/// The files that a run's record touches are four different files.
pub proof fn law_paths_are_distinct(root: Seq<u8>, id: Seq<char>)
    requires
        is_run_id(id),
    ensures
        meta_path(root, id) != meta_tmp_path(root, id),
        meta_path(root, id) != index_path(root),
        meta_path(root, id) != marker_path(root, id),
        meta_tmp_path(root, id) != index_path(root),
        meta_tmp_path(root, id) != marker_path(root, id),
        index_path(root) != marker_path(root, id),
{
    lemma_literals();
    lemma_id_bytes(id);
    lemma_paths(root, id);
    let n = below_root(root).len() as int;
    let meta = meta_path(root, id);
    let tmp = meta_tmp_path(root, id);
    let index = index_path(root);
    let marker = marker_path(root, id);
    assert(meta.len() != tmp.len());
    assert(meta[n] == 114u8 && tmp[n] == 114u8 && index[n] == 105u8 && marker[n] == 114u8);
    assert(meta[n + 3] == 115u8 && tmp[n + 3] == 115u8 && marker[n + 3] == 110u8);
}

/// While meta.json is replaced it is never torn: after each step it holds
/// what it held before or the new record, whole.
pub proof fn law_meta_is_never_torn(disk: Disk, root: Seq<u8>, id: Seq<char>, json: Seq<char>, steps: int)
    requires
        is_run_id(id),
        0 <= steps <= 2,
    ensures
        ({
            let now = after_ops(disk, meta_ops(root, id, json).take(steps));
            let meta = meta_path(root, id);
            ||| now.files.dom().contains(meta) && now.files[meta] == encode_utf8(json)
            ||| now.files.dom().contains(meta) == disk.files.dom().contains(meta) && now.files[meta] == disk.files[meta]
        }),
        ({
            let end = after_ops(disk, meta_ops(root, id, json));
            end.files.dom().contains(meta_path(root, id)) && end.files[meta_path(root, id)] == encode_utf8(json)
        }),
{
    law_paths_are_distinct(root, id);
    lemma_meta_ops(disk, root, id, json);
    let list = meta_ops(root, id, json);
    if steps == 0 {
        assert(list.take(0) =~= seq![]);
        assert(after_ops(disk, list.take(0)) == disk);
    } else if steps == 1 {
        assert(list.take(1).drop_last() =~= seq![]);
        assert(after_ops(disk, list.take(1).drop_last()) == disk);
        assert(list.take(1).last() == list[0]);
    } else {
        assert(list.take(2) =~= list);
    }
}

proof fn lemma_meta_ops(disk: Disk, root: Seq<u8>, id: Seq<char>, json: Seq<char>)
    requires
        is_run_id(id),
    ensures
        after_ops(disk, meta_ops(root, id, json)) == (Disk {
            files: disk.files.remove(meta_tmp_path(root, id)).insert(
                meta_path(root, id),
                encode_utf8(json),
            ),
            ..disk
        }),
{
    law_paths_are_distinct(root, id);
    let list = meta_ops(root, id, json);
    let tmp = meta_tmp_path(root, id);
    let first = list.drop_last();
    assert(first.drop_last() =~= seq![]);
    assert(after_ops(disk, first.drop_last()) == disk);
    assert(first.last() == list[0]);
    let one = after_ops(disk, first);
    assert(one.files == disk.files.insert(tmp, encode_utf8(json)));
    assert(list.last() == list[1]);
    assert(after_ops(disk, list).files =~= disk.files.remove(tmp).insert(
        meta_path(root, id),
        encode_utf8(json),
    ));
}

/// A capture that starts has its record and its marker on disk, and nothing
/// else has changed.
pub proof fn law_start_registers_the_capture(disk: Disk, root: Seq<u8>, id: Seq<char>, json: Seq<char>)
    requires
        is_run_id(id),
    ensures
        after_ops(disk, start_ops(root, id, json)) == (Disk {
            files: disk.files.remove(meta_tmp_path(root, id)).insert(
                meta_path(root, id),
                encode_utf8(json),
            ).insert(marker_path(root, id), seq![]),
            ..disk
        }),
{
    lemma_meta_ops(disk, root, id, json);
    assert(start_ops(root, id, json).drop_last() =~= meta_ops(root, id, json));
}

/// A finished run has its record on disk, one more line at the end of the
/// index, and no marker; nothing else has changed.
pub proof fn law_record_files_the_run(disk: Disk, root: Seq<u8>, id: Seq<char>, json: Seq<char>)
    requires
        is_run_id(id),
    ensures
        after_ops(disk, record_ops(root, id, json)) == (Disk {
            files: disk.files.remove(meta_tmp_path(root, id)).remove(marker_path(root, id)).insert(
                meta_path(root, id),
                encode_utf8(json),
            ).insert(
                index_path(root),
                content(disk, index_path(root)) + encode_utf8(json.push('\n')),
            ),
            ..disk
        }),
{
    law_paths_are_distinct(root, id);
    lemma_meta_ops(disk, root, id, json);
    let list = record_ops(root, id, json);
    let line = encode_utf8(json.push('\n'));
    let index = index_path(root);
    let kept = content(disk, index);
    assert(list.drop_last().drop_last() =~= meta_ops(root, id, json));
    assert(list.drop_last().last() == Op::Append(index, line));
    let two = after_ops(disk, meta_ops(root, id, json));
    assert(content(two, index) == kept);
    let three = after_ops(disk, list.drop_last());
    assert(three.files == two.files.insert(index, kept + line));
    assert(list.last() == Op::Remove(marker_path(root, id)));
    assert(after_ops(disk, list).files == three.files.remove(marker_path(root, id)));
    assert(three.files.remove(marker_path(root, id)) =~= disk.files.remove(
        meta_tmp_path(root, id),
    ).remove(marker_path(root, id)).insert(meta_path(root, id), encode_utf8(json)).insert(
        index,
        kept + line,
    ));
}

/// What a run printed is never touched: neither the start nor the record of
/// any run changes a log.
pub proof fn law_logs_are_never_touched(
    disk: Disk,
    root: Seq<u8>,
    id: Seq<char>,
    json: Seq<char>,
    other: Seq<char>,
)
    requires
        is_run_id(id),
        is_run_id(other),
    ensures
        untouched(disk, after_ops(disk, start_ops(root, id, json)), output_path(root, other)),
        untouched(disk, after_ops(disk, record_ops(root, id, json)), output_path(root, other)),
{
    lemma_log_apart(root, id, other);
    law_start_registers_the_capture(disk, root, id, json);
    law_record_files_the_run(disk, root, id, json);
}

proof fn lemma_log_apart(root: Seq<u8>, id: Seq<char>, other: Seq<char>)
    requires
        is_run_id(id),
        is_run_id(other),
    ensures
        output_path(root, other) != meta_path(root, id),
        output_path(root, other) != meta_tmp_path(root, id),
        output_path(root, other) != index_path(root),
        output_path(root, other) != marker_path(root, id),
{
    lemma_literals();
    lemma_id_bytes(id);
    lemma_id_bytes(other);
    lemma_paths(root, id);
    lemma_paths(root, other);
    let n = below_root(root).len() as int;
    let log = output_path(root, other);
    assert(log.last() == 103u8);
    assert(meta_path(root, id).last() == 110u8);
    assert(meta_tmp_path(root, id).last() == 112u8);
    assert(index_path(root).last() == 108u8);
    assert(log[n + 3] == 115u8);
    assert(marker_path(root, id)[n + 3] == 110u8);
}

/// Deleting a run leaves no file in its directory and no marker, and leaves
/// the index, and the record, the output and the marker of every other run
/// alone.
pub proof fn law_delete_leaves_the_others(disk: Disk, root: Seq<u8>, id: Seq<char>, other: Seq<char>)
    requires
        is_run_id(id),
        is_run_id(other),
        id != other,
    ensures
        ({
            let end = after_ops(disk, delete_ops(root, id));
            &&& forall|p: Seq<u8>| #[trigger] end.files.dom().contains(p) ==> !below(p, run_dir(root, id))
            &&& !end.files.dom().contains(marker_path(root, id))
            &&& untouched(disk, end, index_path(root))
            &&& untouched(disk, end, meta_path(root, other))
            &&& untouched(disk, end, output_path(root, other))
            &&& untouched(disk, end, marker_path(root, other))
        }),
{
    let list = delete_ops(root, id);
    let marker = marker_path(root, id);
    assert(list.drop_last().drop_last() =~= seq![]);
    assert(after_ops(disk, list.drop_last().drop_last()) == disk);
    assert(list.drop_last().last() == list[0]);
    assert(list.last() == list[1]);
    let mid = after_op(disk, Op::RemoveTree(run_dir(root, id)));
    assert(after_ops(disk, list.drop_last()) == mid);
    assert(after_ops(disk, list) == after_op(mid, Op::Remove(marker)));
    lemma_outside(root, id, other);
}

/// Whether a file is as it was.
pub open spec fn untouched(before: Disk, after: Disk, path: Seq<u8>) -> bool {
    &&& before.files.dom().contains(path) == after.files.dom().contains(path)
    &&& before.files.dom().contains(path) ==> before.files[path] == after.files[path]
}

proof fn lemma_outside(root: Seq<u8>, id: Seq<char>, other: Seq<char>)
    requires
        is_run_id(id),
        is_run_id(other),
        id != other,
    ensures
        !below(index_path(root), run_dir(root, id)),
        !below(meta_path(root, other), run_dir(root, id)),
        !below(output_path(root, other), run_dir(root, id)),
        !below(marker_path(root, other), run_dir(root, id)),
        index_path(root) != marker_path(root, id),
        meta_path(root, other) != marker_path(root, id),
        output_path(root, other) != marker_path(root, id),
        marker_path(root, other) != marker_path(root, id),
{
    lemma_paths(root, id);
    lemma_paths(root, other);
    lemma_literals();
    lemma_id_bytes(id);
    lemma_id_bytes(other);
    let n = below_root(root).len() as int;
    let dir = run_dir(root, id);
    let index = index_path(root);
    let marker = marker_path(root, id);
    assert(dir[n + 3] == 115u8);
    assert(dir[n] == 114u8);
    assert(index[n] == 105u8);
    assert(!below(index, dir)) by {
        if below(index, dir) {
            assert(index.take(dir.len() as int)[n] == index[n]);
        }
    }
    assert(marker[n] == 114u8);
    let om = marker_path(root, other);
    assert(om[n + 3] == 110u8);
    assert(!below(om, dir)) by {
        if below(om, dir) {
            assert(om.take(dir.len() as int)[n + 3] == om[n + 3]);
        }
    }
    assert(om != marker) by {
        if om == marker {
            assert forall|k: int| 0 <= k < id.len() && k < other.len() implies id[k] == other[k] by {
                assert(om[n + 8 + k] == encode_utf8(other)[k]);
                assert(marker[n + 8 + k] == encode_utf8(id)[k]);
                assert(id_char(id[k]) && id_char(other[k]));
            }
            assert(om.len() == marker.len());
            assert(id =~= other);
        }
    }
    lemma_other_run(root, id, other, encode_utf8("meta.json"@));
    lemma_other_run(root, id, other, encode_utf8("output.log"@));
    assert(meta_path(root, other)[n + 3] == 115u8);
    assert(output_path(root, other)[n + 3] == 115u8);
    assert(marker[n + 3] == 110u8);
}

proof fn lemma_other_run(root: Seq<u8>, id: Seq<char>, other: Seq<char>, name: Seq<u8>)
    requires
        is_run_id(id),
        is_run_id(other),
        id != other,
    ensures
        !below(below_root(root) + (run_tail(other).push(47u8) + name), run_dir(root, id)),
{
    lemma_paths(root, id);
    lemma_literals();
    lemma_id_bytes(id);
    lemma_id_bytes(other);
    let n = below_root(root).len() as int + 5;
    let dir = run_dir(root, id);
    let p = below_root(root) + (run_tail(other).push(47u8) + name);
    if below(p, dir) {
        let a = encode_utf8(id);
        let b = encode_utf8(other);
        assert(dir.len() == n + a.len());
        assert forall|k: int| 0 <= k < a.len() implies p[n + k] == a[k] by {
            assert(p.take(dir.len() as int)[n + k] == p[n + k]);
            assert(dir[n + k] == a[k]);
        }
        assert forall|k: int| 0 <= k < b.len() implies p[n + k] == b[k] by {}
        assert(p[n + b.len()] == 47u8);
        if b.len() < a.len() {
            assert(p[n + b.len()] == a[b.len() as int]);
        } else if a.len() < b.len() {
            assert(p[n + a.len()] == b[a.len() as int]);
        } else {
            assert forall|k: int| 0 <= k < id.len() implies id[k] == other[k] by {
                assert(a[k] == b[k]);
                assert(id_char(id[k]) && id_char(other[k]));
            }
            assert(id =~= other);
        }
    }
}

// -------------------------------------------------------------- library --

/// The runs that the rows of an index stand for, where `dirs` are the
/// directories that are there.
pub open spec fn rows_kept(
    rows: Seq<Seq<char>>,
    dirs: Set<Seq<u8>>,
    root: Seq<u8>,
    read: spec_fn(Seq<char>) -> Option<RunView>,
) -> Seq<RunView>
    decreases rows.len(),
{
    if rows.len() == 0 {
        seq![]
    } else {
        let rest = rows_kept(rows.drop_last(), dirs, root, read);
        match read(rows.last()) {
            Some(m) => if dirs.contains(run_dir(root, m.id)) {
                rest.push(m)
            } else {
                rest
            },
            None => rest,
        }
    }
}

/// The library on a disk, where `read` reads a record: what the index lists,
/// as far as the runs' directories are there.
pub open spec fn library(
    disk: Disk,
    root: Seq<u8>,
    read: spec_fn(Seq<char>) -> Option<RunView>,
) -> Seq<RunView> {
    rows_kept(index_rows(content(disk, index_path(root))), disk.dirs, root, read)
}

/// The record of a run on a disk: its meta.json, where that can be read.
pub open spec fn stored(
    disk: Disk,
    root: Seq<u8>,
    id: Seq<char>,
    read: spec_fn(Seq<char>) -> Option<RunView>,
) -> Option<RunView> {
    let path = meta_path(root, id);
    if disk.files.dom().contains(path) && valid_utf8(disk.files[path]) {
        read(decode_utf8(disk.files[path]))
    } else {
        None
    }
}

/// Whether `line` is what `row` stands for.
pub open spec fn line_of(
    line: IndexLine,
    row: Seq<char>,
    dirs: Set<Seq<u8>>,
    root: Seq<u8>,
    read: spec_fn(Seq<char>) -> Option<RunView>,
) -> bool {
    match line.meta {
        Some(m) => read(row) == Some(m@) && line.has_dir == dirs.contains(run_dir(root, m@.id)),
        None => read(row) is None,
    }
}

/// What is listed from the lines of the index is the library on the disk.
pub proof fn law_listing_gives_the_library(
    disk: Disk,
    root: Seq<u8>,
    read: spec_fn(Seq<char>) -> Option<RunView>,
    index: Seq<IndexLine>,
)
    requires
        index.len() == index_rows(content(disk, index_path(root))).len(),
        forall|k: int|
            0 <= k < index.len() ==> line_of(
                #[trigger] index[k],
                index_rows(content(disk, index_path(root)))[k],
                disk.dirs,
                root,
                read,
            ),
    ensures
        listed(index) == library(disk, root, read),
{
    lemma_rows_listed(index, index_rows(content(disk, index_path(root))), disk.dirs, root, read);
}

proof fn lemma_rows_listed(
    index: Seq<IndexLine>,
    rows: Seq<Seq<char>>,
    dirs: Set<Seq<u8>>,
    root: Seq<u8>,
    read: spec_fn(Seq<char>) -> Option<RunView>,
)
    requires
        index.len() == rows.len(),
        forall|k: int|
            0 <= k < index.len() ==> line_of(#[trigger] index[k], rows[k], dirs, root, read),
    ensures
        listed(index) == rows_kept(rows, dirs, root, read),
    decreases rows.len(),
{
    if rows.len() > 0 {
        let part = index.drop_last();
        assert forall|k: int| 0 <= k < part.len() implies line_of(
            #[trigger] part[k],
            rows.drop_last()[k],
            dirs,
            root,
            read,
        ) by {
            assert(part[k] == index[k]);
        }
        lemma_rows_listed(part, rows.drop_last(), dirs, root, read);
        assert(line_of(index[index.len() - 1], rows[rows.len() - 1], dirs, root, read));
    } else {
        assert(listed(index) =~= rows_kept(rows, dirs, root, read));
    }
}

/// A run that is recorded is listed at the end of the library, with what was
/// listed before kept in its order; its record can be read, and it has no
/// marker. The index keeps what it held and gains one line; no log and no
/// directory changes.
pub proof fn law_recorded_runs_are_listed(
    disk: Disk,
    root: Seq<u8>,
    m: RunView,
    json: Seq<char>,
    read: spec_fn(Seq<char>) -> Option<RunView>,
)
    requires
        is_run_id(m.id),
        read(json) == Some(m),
        one_line(json),
        disk.dirs.contains(run_dir(root, m.id)),
        whole_lines(content(disk, index_path(root))),
    ensures
        ({
            let end = after_ops(disk, record_ops(root, m.id, json));
            &&& library(end, root, read) == library(disk, root, read).push(m)
            &&& stored(end, root, m.id, read) == Some(m)
            &&& !end.files.dom().contains(marker_path(root, m.id))
            &&& content(end, index_path(root)) == content(disk, index_path(root)) + encode_utf8(
                json,
            ).push(10u8)
            &&& whole_lines(content(end, index_path(root)))
            &&& end.dirs == disk.dirs
            &&& forall|other: Seq<char>|
                is_run_id(other) ==> untouched(disk, end, #[trigger] output_path(root, other))
        }),
{
    let end = after_ops(disk, record_ops(root, m.id, json));
    let had = content(disk, index_path(root));
    law_paths_are_distinct(root, m.id);
    law_record_files_the_run(disk, root, m.id, json);
    law_record_adds_one_line(had, json);
    lemma_line_bytes(json);
    encode_utf8_valid_utf8(json);
    encode_utf8_decode_utf8(json);
    let rows = index_rows(had);
    assert(rows.push(json).drop_last() =~= rows);
    assert(end.files[meta_path(root, m.id)] == encode_utf8(json));
    assert forall|other: Seq<char>| is_run_id(other) implies untouched(
        disk,
        end,
        #[trigger] output_path(root, other),
    ) by {
        law_logs_are_never_touched(disk, root, m.id, json, other);
    }
}

// --------------------------------------------------------------- delete --

/// A disk after a run was deleted: its files dropped, then the index written
/// anew with what is listed without it. `read` and `write` read and write a
/// record.
pub open spec fn deleted(
    disk: Disk,
    root: Seq<u8>,
    id: Seq<char>,
    read: spec_fn(Seq<char>) -> Option<RunView>,
    write: spec_fn(RunView) -> Seq<char>,
) -> Disk {
    let dropped = after_ops(disk, delete_ops(root, id));
    let runs = without(library(dropped, root, read), id);
    after_op(
        dropped,
        Op::Write(index_path(root), encode_utf8(index_text(runs.map_values(write)))),
    )
}

/// Whether what is written as a record is one line that reads back.
pub open spec fn codec(
    read: spec_fn(Seq<char>) -> Option<RunView>,
    write: spec_fn(RunView) -> Seq<char>,
) -> bool {
    forall|m: RunView|
        read(#[trigger] write(m)) == Some(m) && one_line(write(m))
}

/// A deleted run is gone: from the library, which keeps every other run in
/// its place, and from the disk, with its record, its files and its marker.
/// The record, the log and the marker of every other run stay as they are,
/// and to delete the run once more changes nothing.
pub proof fn law_deleted_runs_are_gone(
    disk: Disk,
    root: Seq<u8>,
    id: Seq<char>,
    read: spec_fn(Seq<char>) -> Option<RunView>,
    write: spec_fn(RunView) -> Seq<char>,
)
    requires
        is_run_id(id),
        codec(read, write),
        forall|k: int|
            0 <= k < library(disk, root, read).len() ==> {
                let m = #[trigger] library(disk, root, read)[k];
                m.id == id || (run_dir(root, m.id) != run_dir(root, id) && !below(
                    run_dir(root, m.id),
                    run_dir(root, id),
                ))
            },
    ensures
        ({
            let end = deleted(disk, root, id, read, write);
            &&& library(end, root, read) == without(library(disk, root, read), id)
            &&& stored(end, root, id, read) is None
            &&& !end.files.dom().contains(marker_path(root, id))
            &&& !end.dirs.contains(run_dir(root, id))
            &&& forall|p: Seq<u8>| #[trigger] end.files.dom().contains(p) ==> !below(p, run_dir(root, id))
            &&& forall|other: Seq<char>|
                #![trigger is_run_id(other)]
                is_run_id(other) && other != id ==> untouched(disk, end, meta_path(root, other))
                    && untouched(disk, end, output_path(root, other)) && untouched(
                    disk,
                    end,
                    marker_path(root, other),
                )
            &&& deleted(end, root, id, read, write) == end
        }),
{
    let dir = run_dir(root, id);
    let dropped = after_ops(disk, delete_ops(root, id));
    let all = library(disk, root, read);
    let runs = without(all, id);
    let end = deleted(disk, root, id, read, write);
    let rows = index_rows(content(disk, index_path(root)));
    lemma_dropped(disk, root, id);
    lemma_index_outside(root, id);
    lemma_rows_in_dirs(rows, disk.dirs, root, read);
    assert(content(dropped, index_path(root)) == content(disk, index_path(root)));
    assert forall|k: int| 0 <= k < all.len() implies {
        let m = #[trigger] all[k];
        m.id == id || dropped.dirs.contains(run_dir(root, m.id))
    } by {
        let m = library(disk, root, read)[k];
        assert(dropped.dirs.contains(run_dir(root, m.id)) <==> disk.dirs.contains(
            run_dir(root, m.id),
        ) && run_dir(root, m.id) != dir && !below(run_dir(root, m.id), dir));
    }
    lemma_rows_without(rows, disk.dirs, dropped.dirs, root, read, id);
    law_delete_takes_only_the_run(all, id);
    lemma_without_twice(runs, id);
    lemma_rows_in_dirs(rows, dropped.dirs, root, read);
    assert(rows_kept(rows, dropped.dirs, root, read) == runs);
    assert(without(library(dropped, root, read), id) == runs);
    let text = encode_utf8(index_text(runs.map_values(write)));
    assert(end.files == dropped.files.insert(index_path(root), text));
    lemma_written_rows(runs, dropped.dirs, root, read, write);
    assert(library(end, root, read) == runs);
    lemma_paths(root, id);
    lemma_meta_below(root, id);
    law_paths_are_distinct(root, id);
    assert forall|other: Seq<char>|
        #![trigger is_run_id(other)]
        is_run_id(other) && other != id implies untouched(disk, end, meta_path(root, other))
        && untouched(disk, end, output_path(root, other)) && untouched(
        disk,
        end,
        marker_path(root, other),
    ) by {
        law_delete_leaves_the_others(disk, root, id, other);
        law_paths_are_distinct(root, other);
        lemma_log_apart(root, other, other);
    }
    let again = after_ops(end, delete_ops(root, id));
    lemma_dropped(end, root, id);
    assert(again.files =~= end.files);
    assert(again.dirs =~= end.dirs);
    assert(again == end);
    assert(end.files.insert(index_path(root), text) =~= end.files);
}

proof fn lemma_dropped(disk: Disk, root: Seq<u8>, id: Seq<char>)
    ensures
        ({
            let end = after_ops(disk, delete_ops(root, id));
            let dir = run_dir(root, id);
            &&& forall|p: Seq<u8>|
                #[trigger] end.files.dom().contains(p) <==> disk.files.dom().contains(p) && !below(
                    p,
                    dir,
                ) && p != marker_path(root, id)
            &&& forall|p: Seq<u8>|
                #[trigger] end.files.dom().contains(p) ==> end.files[p] == disk.files[p]
            &&& forall|p: Seq<u8>|
                #[trigger] end.dirs.contains(p) <==> disk.dirs.contains(p) && p != dir && !below(
                    p,
                    dir,
                )
        }),
{
    let list = delete_ops(root, id);
    assert(list.drop_last().drop_last() =~= seq![]);
    assert(after_ops(disk, list.drop_last().drop_last()) == disk);
    assert(list.drop_last().last() == list[0]);
    assert(list.last() == list[1]);
    let mid = after_op(disk, Op::RemoveTree(run_dir(root, id)));
    assert(after_ops(disk, list.drop_last()) == mid);
    assert(after_ops(disk, list) == after_op(mid, Op::Remove(marker_path(root, id))));
}

proof fn lemma_index_outside(root: Seq<u8>, id: Seq<char>)
    requires
        is_run_id(id),
    ensures
        !below(index_path(root), run_dir(root, id)),
        index_path(root) != marker_path(root, id),
{
    lemma_paths(root, id);
    lemma_literals();
    lemma_id_bytes(id);
    law_paths_are_distinct(root, id);
    let n = below_root(root).len() as int;
    let dir = run_dir(root, id);
    let index = index_path(root);
    if below(index, dir) {
        assert(dir[n] == 114u8);
        assert(index[n] == 105u8);
        assert(index.take(dir.len() as int)[n] == index[n]);
    }
}

proof fn lemma_meta_below(root: Seq<u8>, id: Seq<char>)
    requires
        is_run_id(id),
    ensures
        below(meta_path(root, id), run_dir(root, id)),
{
    lemma_paths(root, id);
    lemma_literals();
    lemma_id_bytes(id);
    let meta = meta_path(root, id);
    let dir = run_dir(root, id);
    assert(meta.take(dir.len() as int) =~= dir);
    assert(meta[dir.len() as int] == 47u8);
}

proof fn lemma_rows_without(
    rows: Seq<Seq<char>>,
    dirs: Set<Seq<u8>>,
    left: Set<Seq<u8>>,
    root: Seq<u8>,
    read: spec_fn(Seq<char>) -> Option<RunView>,
    id: Seq<char>,
)
    requires
        forall|p: Seq<u8>| #[trigger] left.contains(p) ==> dirs.contains(p),
        !left.contains(run_dir(root, id)),
        forall|k: int|
            0 <= k < rows_kept(rows, dirs, root, read).len() ==> {
                let m = #[trigger] rows_kept(rows, dirs, root, read)[k];
                m.id == id || left.contains(run_dir(root, m.id))
            },
    ensures
        rows_kept(rows, left, root, read) == without(rows_kept(rows, dirs, root, read), id),
    decreases rows.len(),
{
    let all = rows_kept(rows, dirs, root, read);
    if rows.len() == 0 {
        assert(rows_kept(rows, left, root, read) =~= without(all, id));
    } else {
        let part = rows_kept(rows.drop_last(), dirs, root, read);
        assert forall|k: int| 0 <= k < part.len() implies {
            let m = #[trigger] part[k];
            m.id == id || left.contains(run_dir(root, m.id))
        } by {
            assert(part[k] == all[k]);
        }
        lemma_rows_without(rows.drop_last(), dirs, left, root, read, id);
        if let Some(m) = read(rows.last()) {
            if dirs.contains(run_dir(root, m.id)) {
                assert(all.drop_last() =~= part);
                assert(all[all.len() - 1] == m);
            }
        }
    }
}

proof fn lemma_rows_in_dirs(
    rows: Seq<Seq<char>>,
    dirs: Set<Seq<u8>>,
    root: Seq<u8>,
    read: spec_fn(Seq<char>) -> Option<RunView>,
)
    ensures
        forall|k: int|
            0 <= k < rows_kept(rows, dirs, root, read).len() ==> dirs.contains(
                run_dir(root, (#[trigger] rows_kept(rows, dirs, root, read)[k]).id),
            ),
    decreases rows.len(),
{
    if rows.len() > 0 {
        let part = rows_kept(rows.drop_last(), dirs, root, read);
        let all = rows_kept(rows, dirs, root, read);
        lemma_rows_in_dirs(rows.drop_last(), dirs, root, read);
        assert forall|k: int| 0 <= k < all.len() implies dirs.contains(
            run_dir(root, (#[trigger] all[k]).id),
        ) by {
            if k < part.len() {
                assert(part[k] == all[k]);
            }
        }
    }
}

proof fn lemma_without_twice(runs: Seq<RunView>, id: Seq<char>)
    requires
        forall|k: int| 0 <= k < runs.len() ==> (#[trigger] runs[k]).id != id,
    ensures
        without(runs, id) == runs,
    decreases runs.len(),
{
    if runs.len() > 0 {
        lemma_without_twice(runs.drop_last(), id);
        assert(runs[runs.len() - 1].id != id);
        assert(runs.drop_last().push(runs.last()) =~= runs);
    } else {
        assert(without(runs, id) =~= runs);
    }
}

proof fn lemma_written_rows(
    runs: Seq<RunView>,
    dirs: Set<Seq<u8>>,
    root: Seq<u8>,
    read: spec_fn(Seq<char>) -> Option<RunView>,
    write: spec_fn(RunView) -> Seq<char>,
)
    requires
        codec(read, write),
        forall|k: int| 0 <= k < runs.len() ==> dirs.contains(run_dir(root, (#[trigger] runs[k]).id)),
    ensures
        rows_kept(
            index_rows(encode_utf8(index_text(runs.map_values(write)))),
            dirs,
            root,
            read,
        ) == runs,
{
    let entries = runs.map_values(write);
    assert forall|k: int| 0 <= k < entries.len() implies one_line(#[trigger] entries[k]) by {
        assert(entries[k] == write(runs[k]));
    }
    law_index_reads_back(entries);
    lemma_rows_written(runs, dirs, root, read, write);
}

proof fn lemma_rows_written(
    runs: Seq<RunView>,
    dirs: Set<Seq<u8>>,
    root: Seq<u8>,
    read: spec_fn(Seq<char>) -> Option<RunView>,
    write: spec_fn(RunView) -> Seq<char>,
)
    requires
        codec(read, write),
        forall|k: int| 0 <= k < runs.len() ==> dirs.contains(run_dir(root, (#[trigger] runs[k]).id)),
    ensures
        rows_kept(runs.map_values(write), dirs, root, read) == runs,
    decreases runs.len(),
{
    let entries = runs.map_values(write);
    if runs.len() > 0 {
        let part = runs.drop_last();
        assert forall|k: int| 0 <= k < part.len() implies dirs.contains(
            run_dir(root, (#[trigger] part[k]).id),
        ) by {
            assert(part[k] == runs[k]);
        }
        lemma_rows_written(part, dirs, root, read, write);
        assert(entries.drop_last() =~= part.map_values(write));
        assert(entries.last() == write(runs.last()));
        assert(runs[runs.len() - 1] == runs.last());
        assert(part.push(runs.last()) =~= runs);
    } else {
        assert(rows_kept(entries, dirs, root, read) =~= runs);
    }
}

// -------------------------------------------------------------- markers --

/// A name that a file in a directory can have.
pub open spec fn file_name(name: Seq<u8>) -> bool {
    &&& name.len() > 0
    &&& forall|k: int| 0 <= k < name.len() ==> name[k] != 47u8
}

/// Whether one of the markers has that name.
pub open spec fn named(markers: Seq<Marker>, name: Seq<u8>) -> bool {
    exists|k: int| 0 <= k < markers.len() && (#[trigger] markers[k]).name@ == name
}

/// Whether `path` is that of a marker that stands for nothing any more.
pub open spec fn stale(root: Seq<u8>, markers: Seq<Marker>, path: Seq<u8>) -> bool {
    exists|k: int|
        0 <= k < markers.len() && !(#[trigger] markers[k]).in_flight() && path == path_join(
            running_dir(root),
            markers[k].name@,
        )
}

/// Whether `markers` is what a walk through the directory of the markers
/// finds, with the record that each stands for. Their names are text.
pub open spec fn walked(
    markers: Seq<Marker>,
    disk: Disk,
    root: Seq<u8>,
    read: spec_fn(Seq<char>) -> Option<RunView>,
) -> bool {
    &&& forall|k: int|
        0 <= k < markers.len() ==> {
            let marker = #[trigger] markers[k];
            &&& file_name(marker.name@)
            &&& valid_utf8(marker.name@)
            &&& disk.files.dom().contains(path_join(running_dir(root), marker.name@))
            &&& stored(disk, root, decode_utf8(marker.name@), read) == match marker.meta {
                Some(m) => Some(m@),
                None => None,
            }
        }
    &&& forall|name: Seq<u8>|
        file_name(name) && disk.files.dom().contains(
            #[trigger] path_join(running_dir(root), name),
        ) ==> named(markers, name)
}

/// A sweep removes the markers that stand for nothing any more, and nothing
/// else: those left stand for captures in flight. A second sweep finds the
/// same captures and has nothing to remove.
pub proof fn law_sweeping_twice_is_sweeping_once(
    disk: Disk,
    root: Seq<u8>,
    read: spec_fn(Seq<char>) -> Option<RunView>,
    markers: Seq<Marker>,
    again: Seq<Marker>,
)
    requires
        walked(markers, disk, root, read),
        walked(again, after_ops(disk, leaked(root, markers)), root, read),
    ensures
        ({
            let swept = after_ops(disk, leaked(root, markers));
            &&& swept.dirs == disk.dirs
            &&& forall|p: Seq<u8>|
                #[trigger] swept.files.dom().contains(p) <==> disk.files.dom().contains(p)
                    && !stale(root, markers, p)
            &&& forall|p: Seq<u8>|
                #[trigger] swept.files.dom().contains(p) ==> swept.files[p] == disk.files[p]
            &&& forall|k: int| 0 <= k < again.len() ==> (#[trigger] again[k]).in_flight()
            &&& in_flight(again).to_set() == in_flight(markers).to_set()
            &&& leaked(root, again) == Seq::<Op>::empty()
            &&& after_ops(swept, leaked(root, again)) == swept
        }),
{
    lemma_swept(disk, root, markers);
    assert forall|j: int| 0 <= j < again.len() implies flies_among(#[trigger] again[j], markers) by {
        lemma_left_flies(disk, root, read, markers, again, j);
    }
    assert forall|k: int| 0 <= k < again.len() implies (#[trigger] again[k]).in_flight() by {
        assert(flies_among(again[k], markers));
    }
    lemma_none_leaked(root, again);
    assert forall|k: int| 0 <= k < markers.len() && (#[trigger] markers[k]).in_flight() implies flies_among(
        markers[k],
        again,
    ) by {
        lemma_flying_is_left(disk, root, read, markers, again, k);
    }
    lemma_same_captures(markers, again);
}

proof fn lemma_left_flies(
    disk: Disk,
    root: Seq<u8>,
    read: spec_fn(Seq<char>) -> Option<RunView>,
    markers: Seq<Marker>,
    again: Seq<Marker>,
    j: int,
)
    requires
        walked(markers, disk, root, read),
        walked(again, after_ops(disk, leaked(root, markers)), root, read),
        0 <= j < again.len(),
    ensures
        flies_among(again[j], markers),
{
    let swept = after_ops(disk, leaked(root, markers));
    let name = again[j].name@;
    let path = path_join(running_dir(root), name);
    lemma_swept(disk, root, markers);
    assert(swept.files.dom().contains(path));
    assert(named(markers, name));
    let k = choose|k: int| 0 <= k < markers.len() && (#[trigger] markers[k]).name@ == name;
    if !markers[k].in_flight() {
        assert(stale(root, markers, path));
    }
    lemma_record_outside(disk, root, markers, name, read);
    assert(same_marker(again[j], markers[k]));
}

proof fn lemma_flying_is_left(
    disk: Disk,
    root: Seq<u8>,
    read: spec_fn(Seq<char>) -> Option<RunView>,
    markers: Seq<Marker>,
    again: Seq<Marker>,
    k: int,
)
    requires
        walked(markers, disk, root, read),
        walked(again, after_ops(disk, leaked(root, markers)), root, read),
        0 <= k < markers.len(),
        markers[k].in_flight(),
    ensures
        flies_among(markers[k], again),
{
    let swept = after_ops(disk, leaked(root, markers));
    let name = markers[k].name@;
    let path = path_join(running_dir(root), name);
    lemma_swept(disk, root, markers);
    if stale(root, markers, path) {
        let i = choose|i: int|
            0 <= i < markers.len() && !(#[trigger] markers[i]).in_flight() && path == path_join(
                running_dir(root),
                markers[i].name@,
            );
        lemma_names_differ(root, name, markers[i].name@);
        assert(same_marker(markers[i], markers[k]));
    }
    assert(disk.files.dom().contains(path));
    assert(swept.files.dom().contains(path));
    assert(named(again, name));
    let j = choose|j: int| 0 <= j < again.len() && (#[trigger] again[j]).name@ == name;
    lemma_record_outside(disk, root, markers, name, read);
    assert(same_marker(markers[k], again[j]));
}

proof fn lemma_same_captures(markers: Seq<Marker>, again: Seq<Marker>)
    requires
        forall|j: int| 0 <= j < again.len() ==> flies_among(#[trigger] again[j], markers),
        forall|k: int|
            0 <= k < markers.len() && (#[trigger] markers[k]).in_flight() ==> flies_among(
                markers[k],
                again,
            ),
    ensures
        in_flight(again).to_set() == in_flight(markers).to_set(),
{
    assert forall|m: RunView| #[trigger] in_flight(again).contains(m) <==> in_flight(
        markers,
    ).contains(m) by {
        lemma_in_flight_has(again, m);
        lemma_in_flight_has(markers, m);
        if in_flight(again).contains(m) {
            let j = choose|j: int|
                0 <= j < again.len() && (#[trigger] again[j]).in_flight()
                    && again[j].meta.unwrap()@ == m;
            assert(flies_among(again[j], markers));
            let k = choose|k: int|
                0 <= k < markers.len() && (#[trigger] markers[k]).in_flight() && same_marker(
                    again[j],
                    markers[k],
                );
            assert(markers[k].meta.unwrap()@ == m);
        }
        if in_flight(markers).contains(m) {
            let k = choose|k: int|
                0 <= k < markers.len() && (#[trigger] markers[k]).in_flight()
                    && markers[k].meta.unwrap()@ == m;
            assert(flies_among(markers[k], again));
            let j = choose|j: int|
                0 <= j < again.len() && (#[trigger] again[j]).in_flight() && same_marker(
                    markers[k],
                    again[j],
                );
            assert(again[j].meta.unwrap()@ == m);
        }
    }
    assert(in_flight(again).to_set() =~= in_flight(markers).to_set());
}

/// Whether `marker` is one of those of `markers` that stand for a capture in
/// flight.
spec fn flies_among(marker: Marker, markers: Seq<Marker>) -> bool {
    exists|k: int|
        0 <= k < markers.len() && (#[trigger] markers[k]).in_flight() && same_marker(
            marker,
            markers[k],
        )
}

/// Whether two markers have the same name and stand for the same record.
spec fn same_marker(a: Marker, b: Marker) -> bool {
    &&& a.name@ == b.name@
    &&& match (a.meta, b.meta) {
        (Some(m), Some(n)) => m@ == n@,
        (None, None) => true,
        _ => false,
    }
}

proof fn lemma_none_leaked(root: Seq<u8>, markers: Seq<Marker>)
    requires
        forall|k: int| 0 <= k < markers.len() ==> (#[trigger] markers[k]).in_flight(),
    ensures
        leaked(root, markers) == Seq::<Op>::empty(),
    decreases markers.len(),
{
    if markers.len() > 0 {
        let part = markers.drop_last();
        assert forall|k: int| 0 <= k < part.len() implies (#[trigger] part[k]).in_flight() by {
            assert(part[k] == markers[k]);
        }
        lemma_none_leaked(root, part);
        assert(markers[markers.len() - 1].in_flight());
    }
}

proof fn lemma_in_flight_has(markers: Seq<Marker>, m: RunView)
    ensures
        in_flight(markers).contains(m) <==> exists|k: int|
            0 <= k < markers.len() && (#[trigger] markers[k]).in_flight() && markers[k].meta.unwrap()@
                == m,
    decreases markers.len(),
{
    if markers.len() > 0 {
        let part = markers.drop_last();
        let had = in_flight(part);
        let now = in_flight(markers);
        let last = markers.len() - 1;
        lemma_in_flight_has(part, m);
        if now.contains(m) {
            let i = choose|i: int| 0 <= i < now.len() && now[i] == m;
            if i < had.len() {
                assert(had[i] == m);
                let k = choose|k: int|
                    0 <= k < part.len() && (#[trigger] part[k]).in_flight() && part[k].meta.unwrap()@
                        == m;
                assert(markers[k] == part[k]);
            } else {
                assert(markers[last].in_flight() && markers[last].meta.unwrap()@ == m);
            }
        }
        if exists|k: int|
            0 <= k < markers.len() && (#[trigger] markers[k]).in_flight() && markers[k].meta.unwrap()@
                == m {
            let k = choose|k: int|
                0 <= k < markers.len() && (#[trigger] markers[k]).in_flight()
                    && markers[k].meta.unwrap()@ == m;
            if k < last {
                assert(part[k] == markers[k]);
                assert(part[k].in_flight());
                let i = choose|i: int| 0 <= i < had.len() && had[i] == m;
                assert(now[i] == m);
            } else {
                assert(now[now.len() - 1] == m);
            }
        }
    }
}

proof fn lemma_swept(disk: Disk, root: Seq<u8>, markers: Seq<Marker>)
    ensures
        ({
            let swept = after_ops(disk, leaked(root, markers));
            &&& swept.dirs == disk.dirs
            &&& forall|p: Seq<u8>|
                #[trigger] swept.files.dom().contains(p) <==> disk.files.dom().contains(p)
                    && !stale(root, markers, p)
            &&& forall|p: Seq<u8>|
                #[trigger] swept.files.dom().contains(p) ==> swept.files[p] == disk.files[p]
        }),
    decreases markers.len(),
{
    let swept = after_ops(disk, leaked(root, markers));
    if markers.len() == 0 {
        assert forall|p: Seq<u8>| !stale(root, markers, p) by {}
    } else {
        let part = markers.drop_last();
        let last = markers[markers.len() - 1];
        let path = path_join(running_dir(root), last.name@);
        lemma_swept(disk, root, part);
        let before = after_ops(disk, leaked(root, part));
        if !last.in_flight() {
            assert(leaked(root, markers).drop_last() =~= leaked(root, part));
            assert(swept == after_op(before, Op::Remove(path)));
        }
        assert forall|p: Seq<u8>| #[trigger] stale(root, markers, p) <==> stale(root, part, p) || (
        !last.in_flight() && p == path) by {
            if stale(root, markers, p) {
                let k = choose|k: int|
                    0 <= k < markers.len() && !(#[trigger] markers[k]).in_flight() && p
                        == path_join(running_dir(root), markers[k].name@);
                if k < part.len() {
                    assert(part[k] == markers[k]);
                }
            }
            if stale(root, part, p) {
                let k = choose|k: int|
                    0 <= k < part.len() && !(#[trigger] part[k]).in_flight() && p == path_join(
                        running_dir(root),
                        part[k].name@,
                    );
                assert(markers[k] == part[k]);
            }
            if !last.in_flight() && p == path {
                assert(!markers[markers.len() - 1].in_flight());
            }
        }
        assert forall|p: Seq<u8>|
            #[trigger] swept.files.dom().contains(p) <==> disk.files.dom().contains(p) && !stale(
                root,
                markers,
                p,
            ) by {
            assert(stale(root, markers, p) <==> stale(root, part, p) || (!last.in_flight() && p
                == path));
            assert(before.files.dom().contains(p) <==> disk.files.dom().contains(p) && !stale(
                root,
                part,
                p,
            ));
        }
        assert forall|p: Seq<u8>| #[trigger] swept.files.dom().contains(p) implies swept.files[p]
            == disk.files[p] by {
            assert(before.files.dom().contains(p));
        }
    }
}

/// Where a file in the directory of the markers lies.
proof fn lemma_marker_at(root: Seq<u8>, name: Seq<u8>)
    requires
        file_name(name),
    ensures
        path_join(running_dir(root), name) == below_root(root) + (encode_utf8("running"@).push(47u8)
            + name),
{
    lemma_literals();
    let running = running_dir(root);
    assert(running =~= below_root(root) + encode_utf8("running"@));
    assert(running.last() == 103u8);
    assert(name[0] != 47u8);
    assert(path_join(running, name) =~= below_root(root) + (encode_utf8("running"@).push(47u8)
        + name));
}

proof fn lemma_names_differ(root: Seq<u8>, a: Seq<u8>, b: Seq<u8>)
    requires
        file_name(a),
        file_name(b),
        path_join(running_dir(root), a) == path_join(running_dir(root), b),
    ensures
        a == b,
{
    lemma_marker_at(root, a);
    lemma_marker_at(root, b);
    lemma_literals();
    let p = path_join(running_dir(root), a);
    let n = below_root(root).len() as int + 8;
    assert(p.skip(n) =~= a);
    assert(p.skip(n) =~= b);
}

/// The record that a marker's name stands for is no marker: a sweep leaves
/// it alone.
proof fn lemma_record_outside(
    disk: Disk,
    root: Seq<u8>,
    markers: Seq<Marker>,
    name: Seq<u8>,
    read: spec_fn(Seq<char>) -> Option<RunView>,
)
    requires
        file_name(name),
        valid_utf8(name),
        forall|k: int| 0 <= k < markers.len() ==> file_name((#[trigger] markers[k]).name@),
    ensures
        stored(after_ops(disk, leaked(root, markers)), root, decode_utf8(name), read) == stored(
            disk,
            root,
            decode_utf8(name),
            read,
        ),
{
    let id = decode_utf8(name);
    let path = meta_path(root, id);
    lemma_swept(disk, root, markers);
    decode_utf8_encode_utf8(name);
    lemma_literals();
    let n = below_root(root).len() as int;
    let runs = path_join(root, encode_utf8("runs"@));
    assert(runs =~= below_root(root) + encode_utf8("runs"@));
    assert(runs.last() == 115u8);
    assert(name[0] != 47u8);
    assert(run_dir(root, id) =~= below_root(root) + (encode_utf8("runs"@).push(47u8) + name));
    assert(path.take(n + 4) =~= below_root(root) + encode_utf8("runs"@));
    assert(path.take(n + 4)[n + 3] == path[n + 3]);
    lemma_not_stale(root, markers, path);
    assert(untouched(disk, after_ops(disk, leaked(root, markers)), path));
}

/// A path below the root that does not begin as the markers' do is none of
/// theirs.
proof fn lemma_not_stale(root: Seq<u8>, markers: Seq<Marker>, path: Seq<u8>)
    requires
        forall|k: int| 0 <= k < markers.len() ==> file_name((#[trigger] markers[k]).name@),
        path.len() > below_root(root).len() + 3,
        path[below_root(root).len() as int] != 114u8 || path[below_root(root).len() as int + 3] != 110u8,
    ensures
        !stale(root, markers, path),
{
    lemma_literals();
    let n = below_root(root).len() as int;
    if stale(root, markers, path) {
        let k = choose|k: int|
            0 <= k < markers.len() && !(#[trigger] markers[k]).in_flight() && path == path_join(
                running_dir(root),
                markers[k].name@,
            );
        lemma_marker_at(root, markers[k].name@);
        assert(path[n] == 114u8);
        assert(path[n + 3] == 110u8);
    }
}

/// To serve the index page is to read, but for the sweep: the library, the
/// index, every directory and every run's record and log stay as they are,
/// and so does every file but the markers that stand for nothing any more.
pub proof fn law_index_page_only_sweeps(
    disk: Disk,
    root: Seq<u8>,
    read: spec_fn(Seq<char>) -> Option<RunView>,
    markers: Seq<Marker>,
)
    requires
        forall|k: int| 0 <= k < markers.len() ==> file_name((#[trigger] markers[k]).name@),
    ensures
        ({
            let served = after_ops(disk, leaked(root, markers));
            &&& library(served, root, read) == library(disk, root, read)
            &&& untouched(disk, served, index_path(root))
            &&& served.dirs == disk.dirs
            &&& forall|id: Seq<char>|
                #![trigger is_run_id(id)]
                is_run_id(id) ==> {
                    &&& stored(served, root, id, read) == stored(disk, root, id, read)
                    &&& untouched(disk, served, meta_path(root, id))
                    &&& untouched(disk, served, output_path(root, id))
                }
            &&& forall|p: Seq<u8>|
                !stale(root, markers, p) ==> #[trigger] untouched(disk, served, p)
            &&& forall|p: Seq<u8>| stale(root, markers, p) ==> !served.files.dom().contains(p)
        }),
{
    let served = after_ops(disk, leaked(root, markers));
    lemma_swept(disk, root, markers);
    lemma_literals();
    let n = below_root(root).len() as int;
    let index = index_path(root);
    assert(index =~= below_root(root) + encode_utf8("index.jsonl"@));
    assert(index[n] == 105u8);
    lemma_not_stale(root, markers, index);
    assert(content(served, index) == content(disk, index));
    assert forall|id: Seq<char>|
        #![trigger is_run_id(id)]
        is_run_id(id) implies {
        &&& stored(served, root, id, read) == stored(disk, root, id, read)
        &&& untouched(disk, served, meta_path(root, id))
        &&& untouched(disk, served, output_path(root, id))
    } by {
        lemma_paths(root, id);
        lemma_id_bytes(id);
        assert(meta_path(root, id)[n + 3] == 115u8);
        assert(output_path(root, id)[n + 3] == 115u8);
        lemma_not_stale(root, markers, meta_path(root, id));
        lemma_not_stale(root, markers, output_path(root, id));
        assert(untouched(disk, served, meta_path(root, id)));
        assert(untouched(disk, served, output_path(root, id)));
    }
}

/// Every marker either stands for a capture in flight or is removed.
pub proof fn law_sweep_splits_the_markers(root: Seq<u8>, markers: Seq<Marker>)
    ensures
        in_flight(markers).len() + leaked(root, markers).len() == markers.len(),
    decreases markers.len(),
{
    if markers.len() > 0 {
        law_sweep_splits_the_markers(root, markers.drop_last());
    }
}

} // verus!
