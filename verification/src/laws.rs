//! What holds of the library as a whole, stated over its models and proved.

use vstd::prelude::*;
use vstd::utf8::valid_utf8;
use crate::cycle::{start_index_for, unchanged, watermark_for, RESUME_MARGIN};
use crate::encoding::{decoded_text, has_bom};
use crate::meta::FileMeta;
use crate::reader::{
    emitted, file_columns, file_rows, first_new, is_anchor, past_anchor, read_error, record_at,
    window_start, Columns, ReadResultView,
};
use crate::state::{
    all_distinct, clashes, count_event, count_slot, holds_clash, same_event, same_slot, store_all,
    store_one, RecordView,
};
use crate::tokens::Row;

verus! {

/// Where the row at `at` is the first anchor row from `from` on, the rows
/// taken as seen end just behind it.
pub proof fn lemma_past_anchor(
    rows: Seq<Row>,
    from: int,
    at: int,
    anchor_raw: Option<Seq<char>>,
    anchor_hash: Option<Seq<char>>,
)
    requires
        0 <= from <= at < rows.len(),
        is_anchor(rows[at], anchor_raw, anchor_hash),
        forall|j: int| from <= j < at ==> !is_anchor(#[trigger] rows[j], anchor_raw, anchor_hash),
    ensures
        past_anchor(rows, from, anchor_raw, anchor_hash) == at + 1,
    decreases at - from,
{
    if from < at {
        assert(!is_anchor(rows[from], anchor_raw, anchor_hash));
        lemma_past_anchor(rows, from + 1, at, anchor_raw, anchor_hash);
    }
}

/// The rows taken as seen end inside the file, at or behind the place where
/// the search for the anchor began.
pub proof fn lemma_past_anchor_bounds(
    rows: Seq<Row>,
    from: int,
    anchor_raw: Option<Seq<char>>,
    anchor_hash: Option<Seq<char>>,
)
    requires
        0 <= from <= rows.len(),
    ensures
        from <= past_anchor(rows, from, anchor_raw, anchor_hash) <= rows.len(),
    decreases rows.len() - from,
{
    if from < rows.len() && !is_anchor(rows[from], anchor_raw, anchor_hash) {
        lemma_past_anchor_bounds(rows, from + 1, anchor_raw, anchor_hash);
    }
}

/// Where no row from `from` on is the anchor row, every row counts as seen.
pub proof fn lemma_past_anchor_none(
    rows: Seq<Row>,
    from: int,
    anchor_raw: Option<Seq<char>>,
    anchor_hash: Option<Seq<char>>,
)
    requires
        0 <= from <= rows.len(),
        forall|j: int|
            from <= j < rows.len() ==> !is_anchor(#[trigger] rows[j], anchor_raw, anchor_hash),
    ensures
        past_anchor(rows, from, anchor_raw, anchor_hash) == rows.len(),
    decreases rows.len() - from,
{
    if from < rows.len() {
        assert(!is_anchor(rows[from], anchor_raw, anchor_hash));
        lemma_past_anchor_none(rows, from + 1, anchor_raw, anchor_hash);
    }
}

/// The new records of a pass are the last rows of the file, without a gap:
/// they carry consecutive ordinals up to the last row, none of them under
/// `start_index` or under 1.
pub proof fn law_emitted_is_the_tail(
    rows: Seq<Row>,
    cols: Columns,
    start_index: int,
    anchor_raw: Option<Seq<char>>,
    anchor_hash: Option<Seq<char>>,
)
    ensures
        emitted(rows, cols, start_index, anchor_raw, anchor_hash).len() <= rows.len(),
        forall|k: int|
            0 <= k < emitted(rows, cols, start_index, anchor_raw, anchor_hash).len() ==> {
                let out = emitted(rows, cols, start_index, anchor_raw, anchor_hash);
                let record = #[trigger] emitted(
                    rows,
                    cols,
                    start_index,
                    anchor_raw,
                    anchor_hash,
                )[k];
                &&& record.row_index == rows.len() - out.len() + k + 1
                &&& record.row_index >= start_index
                &&& record.row_index >= 1
                &&& record == record_at(rows, cols, record.row_index - 1)
            },
{
    let lo = window_start(rows.len() as int, start_index);
    lemma_past_anchor_bounds(rows, lo, anchor_raw, anchor_hash);
}

/// Without an anchor, every row inside the resume window is new.
pub proof fn law_without_anchor(rows: Seq<Row>, cols: Columns, start_index: int)
    ensures
        first_new(rows, start_index, None, None) == window_start(rows.len() as int, start_index),
        start_index <= 1 ==> emitted(rows, cols, start_index, None, None).len() == rows.len(),
        1 <= start_index <= rows.len() ==> emitted(rows, cols, start_index, None, None).len()
            == rows.len() - start_index + 1,
{
}

/// An anchor that no row of the resume window matches gives a pass without
/// new records, whatever the file holds.
pub proof fn law_anchor_not_found(
    rows: Seq<Row>,
    cols: Columns,
    start_index: int,
    anchor_raw: Option<Seq<char>>,
    anchor_hash: Option<Seq<char>>,
)
    requires
        anchor_raw is Some || anchor_hash is Some,
        forall|j: int|
            window_start(rows.len() as int, start_index) <= j < rows.len() ==> !is_anchor(
                #[trigger] rows[j],
                anchor_raw,
                anchor_hash,
            ),
    ensures
        emitted(rows, cols, start_index, anchor_raw, anchor_hash).len() == 0,
{
    lemma_past_anchor_none(
        rows,
        window_start(rows.len() as int, start_index),
        anchor_raw,
        anchor_hash,
    );
}

/// Resume-window tolerance. A pass ended at row `n`, and the row that it
/// remembers as anchor now stands at the ordinal `at`: up to ten rows
/// earlier than before, where it was, or anywhere later. Then the next pass
/// finds it and emits exactly the rows behind it, each with its ordinal in
/// the file as it is now. This is stated for files in which no row of the
/// resume window before the anchor row reads like the anchor.
pub proof fn law_resume_window_tolerance(
    rows: Seq<Row>,
    cols: Columns,
    n: int,
    at: int,
    anchor_raw: Option<Seq<char>>,
    anchor_hash: Option<Seq<char>>,
)
    requires
        1 <= at <= rows.len(),
        n - RESUME_MARGIN <= at,
        is_anchor(rows[at - 1], anchor_raw, anchor_hash),
        forall|j: int|
            window_start(rows.len() as int, start_index_for(Some(n))) <= j < at - 1 ==> !is_anchor(
                #[trigger] rows[j],
                anchor_raw,
                anchor_hash,
            ),
    ensures
        first_new(rows, start_index_for(Some(n)), anchor_raw, anchor_hash) == at,
        emitted(rows, cols, start_index_for(Some(n)), anchor_raw, anchor_hash).len() == rows.len()
            - at,
        forall|k: int|
            0 <= k < rows.len() - at ==> {
                let record = #[trigger] emitted(
                    rows,
                    cols,
                    start_index_for(Some(n)),
                    anchor_raw,
                    anchor_hash,
                )[k];
                record == record_at(rows, cols, at + k) && record.row_index == at + k + 1
            },
{
    let lo = window_start(rows.len() as int, start_index_for(Some(n)));
    lemma_past_anchor(rows, lo, at - 1, anchor_raw, anchor_hash);
}

/// Anchor convergence. The first `n` rows of a file are as the previous pass
/// left them, that pass ended at row `n` and remembers it as anchor, and `m`
/// rows follow. Then the next pass emits exactly those `m` rows, with the
/// ordinals `n + 1` to `n + m`. This is stated for files in which no row of
/// the resume window before row `n` reads like the anchor.
pub proof fn law_anchor_convergence(
    rows: Seq<Row>,
    cols: Columns,
    n: int,
    m: int,
    anchor_raw: Option<Seq<char>>,
    anchor_hash: Option<Seq<char>>,
)
    requires
        1 <= n,
        0 <= m,
        rows.len() == n + m,
        is_anchor(rows[n - 1], anchor_raw, anchor_hash),
        forall|j: int|
            window_start(rows.len() as int, start_index_for(Some(n))) <= j < n - 1 ==> !is_anchor(
                #[trigger] rows[j],
                anchor_raw,
                anchor_hash,
            ),
    ensures
        emitted(rows, cols, start_index_for(Some(n)), anchor_raw, anchor_hash).len() == m,
        forall|k: int|
            0 <= k < m ==> {
                let record = #[trigger] emitted(
                    rows,
                    cols,
                    start_index_for(Some(n)),
                    anchor_raw,
                    anchor_hash,
                )[k];
                record == record_at(rows, cols, n + k) && record.row_index == n + 1 + k
            },
{
    law_resume_window_tolerance(rows, cols, n, n, anchor_raw, anchor_hash);
}

/// Byte-order-mark transparency. A file that starts with the UTF-8
/// byte-order mark reads as the same content without it: the same text, and
/// so the same error or the same columns and rows. This is stated for
/// content that is valid UTF-8 and does not itself start with the mark.
pub proof fn law_bom_transparency(content: Seq<u8>)
    requires
        valid_utf8(content),
        !has_bom(content),
    ensures
        decoded_text(seq![0xEFu8, 0xBBu8, 0xBFu8] + content) == decoded_text(content),
        read_error(seq![0xEFu8, 0xBBu8, 0xBFu8] + content) == read_error(content),
        file_columns(seq![0xEFu8, 0xBBu8, 0xBFu8] + content) == file_columns(content),
        file_rows(seq![0xEFu8, 0xBBu8, 0xBFu8] + content) == file_rows(content),
{
    let marked = seq![0xEFu8, 0xBBu8, 0xBFu8] + content;
    assert(has_bom(marked));
    assert(marked.skip(3) =~= content);
}

/// Idempotence. The watermark that a cycle stores carries the fingerprint
/// that the cycle read, so the next cycle on the same fingerprint finds the
/// file unchanged; such a cycle writes nothing, as `run_cycle` states.
pub proof fn law_stored_fingerprint_is_unchanged(
    path: Seq<char>,
    meta: FileMeta,
    pass: ReadResultView,
    now: int,
)
    ensures
        unchanged(meta, Some(watermark_for(path, meta, pass, now))),
{
}

/// Among records of which no two clash, no record shares the slot of `r`
/// where the count is 0, and at most one does.
pub proof fn lemma_count_slot(records: Seq<RecordView>, r: RecordView)
    requires
        all_distinct(records),
    ensures
        count_slot(records, r) <= 1,
        count_slot(records, r) == 1 <==> exists|i: int|
            0 <= i < records.len() && same_slot(#[trigger] records[i], r),
    decreases records.len(),
{
    if records.len() > 0 {
        let init = records.drop_last();
        assert forall|i: int, j: int| 0 <= i < j < init.len() implies !clashes(
            #[trigger] init[i],
            #[trigger] init[j],
        ) by {
            assert(init[i] == records[i] && init[j] == records[j]);
        }
        lemma_count_slot(init, r);
        if same_slot(records.last(), r) {
            if count_slot(init, r) == 1 {
                let i = choose|i: int| 0 <= i < init.len() && same_slot(#[trigger] init[i], r);
                assert(init[i] == records[i]);
                assert(clashes(records[i], records[records.len() - 1]));
                assert(false);
            }
            assert(same_slot(records[records.len() - 1], r));
        } else {
            if count_slot(init, r) == 1 {
                let i = choose|i: int| 0 <= i < init.len() && same_slot(#[trigger] init[i], r);
                assert(same_slot(records[i], r));
            }
            if exists|i: int| 0 <= i < records.len() && same_slot(#[trigger] records[i], r) {
                let i = choose|i: int| 0 <= i < records.len() && same_slot(#[trigger] records[i], r);
                assert(same_slot(init[i], r));
            }
        }
    }
}

/// Among records of which no two clash, no record tells the event of `r`
/// where the count is 0, and at most one does.
pub proof fn lemma_count_event(records: Seq<RecordView>, r: RecordView)
    requires
        all_distinct(records),
    ensures
        count_event(records, r) <= 1,
        count_event(records, r) == 1 <==> exists|i: int|
            0 <= i < records.len() && same_event(#[trigger] records[i], r),
    decreases records.len(),
{
    if records.len() > 0 {
        let init = records.drop_last();
        assert forall|i: int, j: int| 0 <= i < j < init.len() implies !clashes(
            #[trigger] init[i],
            #[trigger] init[j],
        ) by {
            assert(init[i] == records[i] && init[j] == records[j]);
        }
        lemma_count_event(init, r);
        if same_event(records.last(), r) {
            if count_event(init, r) == 1 {
                let i = choose|i: int| 0 <= i < init.len() && same_event(#[trigger] init[i], r);
                assert(init[i] == records[i]);
                assert(clashes(records[i], records[records.len() - 1]));
                assert(false);
            }
            assert(same_event(records[records.len() - 1], r));
        } else {
            if count_event(init, r) == 1 {
                let i = choose|i: int| 0 <= i < init.len() && same_event(#[trigger] init[i], r);
                assert(same_event(records[i], r));
            }
            if exists|i: int| 0 <= i < records.len() && same_event(#[trigger] records[i], r) {
                let i = choose|i: int|
                    0 <= i < records.len() && same_event(#[trigger] records[i], r);
                assert(same_event(init[i], r));
            }
        }
    }
}

/// No double insertion. Handing `r` to a store whose records are distinct
/// leaves them distinct. Where a record held already fills the slot of `r`
/// or tells its event, nothing is stored, and the store holds exactly one
/// record for that slot, or that event, as before. In every case `r` clashes
/// with a record held afterwards, so handing it over again changes nothing.
pub proof fn law_no_double_insertion(held: Seq<RecordView>, r: RecordView)
    requires
        all_distinct(held),
    ensures
        all_distinct(store_one(held, r)),
        holds_clash(held, r) ==> store_one(held, r) == held,
        count_slot(store_one(held, r), r) <= 1,
        count_event(store_one(held, r), r) <= 1,
        count_slot(held, r) == 1 ==> count_slot(store_one(held, r), r) == 1,
        count_event(held, r) == 1 ==> count_event(store_one(held, r), r) == 1,
        store_one(store_one(held, r), r) == store_one(held, r),
{
    let after = store_one(held, r);
    if !holds_clash(held, r) {
        assert forall|i: int, j: int| 0 <= i < j < after.len() implies !clashes(
            #[trigger] after[i],
            #[trigger] after[j],
        ) by {
            if j < held.len() {
                assert(!clashes(held[i], held[j]));
            } else {
                assert(!clashes(held[i], r));
            }
        }
        assert(clashes(after[held.len() as int], r));
    }
    lemma_count_slot(held, r);
    lemma_count_event(held, r);
    lemma_count_slot(after, r);
    lemma_count_event(after, r);
    assert(holds_clash(after, r));
}

/// A record that clashes with one held still does after another record has
/// been handed over.
pub proof fn lemma_clash_stays(held: Seq<RecordView>, x: RecordView, r: RecordView)
    requires
        holds_clash(held, r),
    ensures
        holds_clash(store_one(held, x), r),
{
    let i = choose|i: int| 0 <= i < held.len() && clashes(#[trigger] held[i], r);
    assert(store_one(held, x)[i] == held[i]);
}

/// A record that clashes with one held still does after any records have
/// been handed over.
pub proof fn lemma_clash_stays_all(held: Seq<RecordView>, new: Seq<RecordView>, r: RecordView)
    requires
        holds_clash(held, r),
    ensures
        holds_clash(store_all(held, new), r),
    decreases new.len(),
{
    if new.len() > 0 {
        lemma_clash_stays_all(held, new.drop_last(), r);
        lemma_clash_stays(store_all(held, new.drop_last()), new.last(), r);
    }
}

/// Every record handed over clashes with one held afterwards: itself, or the
/// one that stood against it.
pub proof fn lemma_handed_is_held(held: Seq<RecordView>, new: Seq<RecordView>, i: int)
    requires
        0 <= i < new.len(),
    ensures
        holds_clash(store_all(held, new), new[i]),
    decreases new.len(),
{
    let before = store_all(held, new.drop_last());
    if i == new.len() - 1 {
        if !holds_clash(before, new.last()) {
            assert(clashes(store_one(before, new.last())[before.len() as int], new.last()));
        }
    } else {
        lemma_handed_is_held(held, new.drop_last(), i);
        assert(new.drop_last()[i] == new[i]);
        lemma_clash_stays(before, new.last(), new[i]);
    }
}

/// Records that all clash with records held change nothing.
pub proof fn lemma_store_all_held(held: Seq<RecordView>, new: Seq<RecordView>)
    requires
        forall|i: int| 0 <= i < new.len() ==> holds_clash(held, #[trigger] new[i]),
    ensures
        store_all(held, new) == held,
    decreases new.len(),
{
    if new.len() > 0 {
        assert forall|i: int| 0 <= i < new.drop_last().len() implies holds_clash(
            held,
            #[trigger] new.drop_last()[i],
        ) by {
            assert(new.drop_last()[i] == new[i]);
        }
        lemma_store_all_held(held, new.drop_last());
        assert(holds_clash(held, new[new.len() - 1]));
    }
}

/// Handing over again is safe. Where the records of a pass reached the
/// store but the watermark did not move, the next cycle hands the same
/// records over once more; the store then holds what it held.
pub proof fn law_handing_over_again_changes_nothing(held: Seq<RecordView>, new: Seq<RecordView>)
    ensures
        store_all(store_all(held, new), new) == store_all(held, new),
{
    let after = store_all(held, new);
    assert forall|i: int| 0 <= i < new.len() implies holds_clash(after, #[trigger] new[i]) by {
        lemma_handed_is_held(held, new, i);
    }
    lemma_store_all_held(after, new);
}

/// Handing records over keeps the records of a store distinct.
pub proof fn law_store_stays_distinct(held: Seq<RecordView>, new: Seq<RecordView>)
    requires
        all_distinct(held),
    ensures
        all_distinct(store_all(held, new)),
    decreases new.len(),
{
    if new.len() > 0 {
        law_store_stays_distinct(held, new.drop_last());
        law_no_double_insertion(store_all(held, new.drop_last()), new.last());
    }
}

} // verus!
