//! Logical row keys.
//!
//! A [`RowKey`] addresses a single row: the project, dataset and table it is in, the table's
//! incarnation, and the row's own key. Every row of one incarnation shares a 56-byte prefix.

use vstd::prelude::*;

use crate::catalog::ids::{DatasetId, ProjectId, TableId, TruncationId};
use crate::storage::bytes::{
    be_bytes, be_value, copy_bytes, lemma_be_len, lemma_be_order, lemma_be_roundtrip,
    lemma_be_value_bound, lemma_lex_extend, lemma_lex_prefix, lemma_pow256_values, lex_lt, push_all,
    push_be, read_be,
};
use crate::storage::types::Uuid;

verus! {

/// Bytes of an id.
pub const ID_BYTES: usize = 16;

/// Bytes of a truncation id.
pub const TRUNC_BYTES: usize = 8;

/// Bytes that every row of one table incarnation shares.
pub const PREFIX_BYTES: usize = 56;

/// The key of one row.
#[derive(Debug, PartialEq, Eq)]
pub struct RowKey {
    pub project_id: ProjectId,
    pub dataset_id: DatasetId,
    pub table_id: TableId,
    /// Which incarnation of the table the row belongs to.
    pub truncation_id: TruncationId,
    pub user_key: Vec<u8>,
}

/// Bytes that are no row key.
#[derive(Debug)]
pub enum EncodingError {
    Invalid(String),
}

/// What a [`RowKey`] is, mathematically.
pub struct RowKeyModel {
    pub project_id: ProjectId,
    pub dataset_id: DatasetId,
    pub table_id: TableId,
    pub truncation_id: TruncationId,
    pub user_key: Seq<u8>,
}

impl View for RowKey {
    type V = RowKeyModel;

    open spec fn view(&self) -> RowKeyModel {
        RowKeyModel {
            project_id: self.project_id,
            dataset_id: self.dataset_id,
            table_id: self.table_id,
            truncation_id: self.truncation_id,
            user_key: self.user_key@,
        }
    }
}

impl Clone for RowKey {
    fn clone(&self) -> (r: Self)
        ensures
            r@ == self@,
    {
        RowKey {
            project_id: self.project_id,
            dataset_id: self.dataset_id,
            table_id: self.table_id,
            truncation_id: self.truncation_id,
            user_key: copy_bytes(self.user_key.as_slice()),
        }
    }
}

/// The prefix of a table incarnation's keys: three ids of sixteen bytes and the truncation
/// id, each most significant byte first.
pub open spec fn prefix_layout(
    project_id: ProjectId,
    dataset_id: DatasetId,
    table_id: TableId,
    truncation_id: TruncationId,
) -> Seq<u8> {
    be_bytes(project_id.0.value as nat, 16) + be_bytes(dataset_id.0.value as nat, 16) + be_bytes(
        table_id.0.value as nat,
        16,
    ) + be_bytes(truncation_id.0 as nat, 8)
}

impl RowKeyModel {
    /// The engine's bytes for a row key: the prefix, then the row's own key.
    pub open spec fn layout(self) -> Seq<u8> {
        prefix_layout(self.project_id, self.dataset_id, self.table_id, self.truncation_id)
            + self.user_key
    }
}

/// The row key that engine bytes stand for, where they are long enough to hold one.
pub open spec fn row_key_of(bytes: Seq<u8>) -> Option<RowKeyModel> {
    if bytes.len() < PREFIX_BYTES {
        None
    } else {
        Some(
            RowKeyModel {
                project_id: ProjectId(Uuid { value: be_value(bytes.subrange(0, 16)) as u128 }),
                dataset_id: DatasetId(Uuid { value: be_value(bytes.subrange(16, 32)) as u128 }),
                table_id: TableId(Uuid { value: be_value(bytes.subrange(32, 48)) as u128 }),
                truncation_id: TruncationId(be_value(bytes.subrange(48, 56)) as u64),
                user_key: bytes.skip(56),
            },
        )
    }
}

/// Append the prefix of a table incarnation's keys.
fn push_prefix(
    out: &mut Vec<u8>,
    project_id: ProjectId,
    dataset_id: DatasetId,
    table_id: TableId,
    truncation_id: TruncationId,
)
    ensures
        final(out)@ == old(out)@ + prefix_layout(project_id, dataset_id, table_id, truncation_id),
{
    push_be(out, project_id.0.value, 16);
    push_be(out, dataset_id.0.value, 16);
    push_be(out, table_id.0.value, 16);
    push_be(out, truncation_id.0 as u128, 8);
    assert(out@ =~= old(out)@ + prefix_layout(project_id, dataset_id, table_id, truncation_id));
}

/// The number that `bytes[from..to]` spells.
fn read_at(bytes: &[u8], from: usize, to: usize) -> (v: u128)
    requires
        from <= to <= bytes@.len(),
        to - from <= 16,
    ensures
        v == be_value(bytes@.subrange(from as int, to as int)),
{
    read_be(vstd::slice::slice_subrange(bytes, from, to))
}

impl RowKey {
    pub fn new(
        project_id: ProjectId,
        dataset_id: DatasetId,
        table_id: TableId,
        truncation_id: TruncationId,
        user_key: Vec<u8>,
    ) -> (r: Self)
        ensures
            r@ == (RowKeyModel {
                project_id,
                dataset_id,
                table_id,
                truncation_id,
                user_key: user_key@,
            }),
    {
        RowKey { project_id, dataset_id, table_id, truncation_id, user_key }
    }

    /// The engine's bytes for this row key.
    pub fn encode(&self) -> (out: Vec<u8>)
        ensures
            out@ == self@.layout(),
    {
        let mut out: Vec<u8> = Vec::new();
        push_prefix(
            &mut out,
            self.project_id,
            self.dataset_id,
            self.table_id,
            self.truncation_id,
        );
        push_all(&mut out, self.user_key.as_slice());
        assert(out@ =~= self@.layout());
        out
    }

    /// The prefix that every row of one table incarnation shares.
    pub fn table_prefix(
        project_id: ProjectId,
        dataset_id: DatasetId,
        table_id: TableId,
        truncation_id: TruncationId,
    ) -> (out: Vec<u8>)
        ensures
            out@ == prefix_layout(project_id, dataset_id, table_id, truncation_id),
    {
        let mut out: Vec<u8> = Vec::new();
        push_prefix(&mut out, project_id, dataset_id, table_id, truncation_id);
        assert(out@ =~= prefix_layout(project_id, dataset_id, table_id, truncation_id));
        out
    }

    /// The row key that engine bytes stand for; an error where they are shorter than the
    /// prefix.
    pub fn decode(bytes: &[u8]) -> (r: Result<Self, EncodingError>)
        ensures
            r is Ok <==> row_key_of(bytes@) is Some,
            r is Ok ==> r->Ok_0@ == row_key_of(bytes@)->0,
    {
        if bytes.len() < PREFIX_BYTES {
            return Err(
                EncodingError::Invalid("row key shorter than its 56-byte prefix".to_owned()),
            );
        }
        proof {
            lemma_pow256_values();
            lemma_be_value_bound(bytes@.subrange(0, 16));
            lemma_be_value_bound(bytes@.subrange(16, 32));
            lemma_be_value_bound(bytes@.subrange(32, 48));
            lemma_be_value_bound(bytes@.subrange(48, 56));
        }
        let project_id = ProjectId(Uuid { value: read_at(bytes, 0, 16) });
        let dataset_id = DatasetId(Uuid { value: read_at(bytes, 16, 32) });
        let table_id = TableId(Uuid { value: read_at(bytes, 32, 48) });
        let truncation_id = TruncationId(read_at(bytes, 48, 56) as u64);
        let user_key = copy_bytes(vstd::slice::slice_subrange(bytes, 56, bytes.len()));
        assert(user_key@ =~= bytes@.skip(56));
        Ok(RowKey { project_id, dataset_id, table_id, truncation_id, user_key })
    }
}

/// A row key survives the trip through its bytes.
pub proof fn law_row_key_roundtrip(k: RowKeyModel)
    ensures
        row_key_of(k.layout()) == Some(k),
        k.layout().len() == PREFIX_BYTES + k.user_key.len(),
{
    lemma_pow256_values();
    let p = be_bytes(k.project_id.0.value as nat, 16);
    let d = be_bytes(k.dataset_id.0.value as nat, 16);
    let t = be_bytes(k.table_id.0.value as nat, 16);
    let c = be_bytes(k.truncation_id.0 as nat, 8);
    lemma_be_len(k.project_id.0.value as nat, 16);
    lemma_be_len(k.dataset_id.0.value as nat, 16);
    lemma_be_len(k.table_id.0.value as nat, 16);
    lemma_be_len(k.truncation_id.0 as nat, 8);
    lemma_be_roundtrip(k.project_id.0.value as nat, 16);
    lemma_be_roundtrip(k.dataset_id.0.value as nat, 16);
    lemma_be_roundtrip(k.table_id.0.value as nat, 16);
    lemma_be_roundtrip(k.truncation_id.0 as nat, 8);
    let all = k.layout();
    assert(all.subrange(0, 16) =~= p);
    assert(all.subrange(16, 32) =~= d);
    assert(all.subrange(32, 48) =~= t);
    assert(all.subrange(48, 56) =~= c);
    assert(all.skip(56) =~= k.user_key);
}

/// Every row of a table incarnation starts with that incarnation's prefix.
pub proof fn law_rows_share_their_prefix(k: RowKeyModel)
    ensures
        prefix_layout(k.project_id, k.dataset_id, k.table_id, k.truncation_id).is_prefix_of(
            k.layout(),
        ),
{
}

/// All rows of an earlier incarnation of a table sort before all rows of a later one.
pub proof fn law_incarnations_sort_in_creation_order(older: RowKeyModel, newer: RowKeyModel)
    requires
        older.project_id == newer.project_id,
        older.dataset_id == newer.dataset_id,
        older.table_id == newer.table_id,
        older.truncation_id.0 < newer.truncation_id.0,
    ensures
        lex_lt(older.layout(), newer.layout()),
{
    lemma_pow256_values();
    let shared = be_bytes(older.project_id.0.value as nat, 16) + be_bytes(
        older.dataset_id.0.value as nat,
        16,
    ) + be_bytes(older.table_id.0.value as nat, 16);
    let a = be_bytes(older.truncation_id.0 as nat, 8);
    let b = be_bytes(newer.truncation_id.0 as nat, 8);
    lemma_be_order(older.truncation_id.0 as nat, newer.truncation_id.0 as nat, 8);
    lemma_be_len(older.truncation_id.0 as nat, 8);
    lemma_be_len(newer.truncation_id.0 as nat, 8);
    lemma_lex_extend(a, b, older.user_key, newer.user_key);
    lemma_lex_prefix(shared, a + older.user_key, b + newer.user_key);
    assert(older.layout() =~= shared + (a + older.user_key));
    assert(newer.layout() =~= shared + (b + newer.user_key));
}

/// Within one incarnation rows sort by their own keys.
pub proof fn law_rows_sort_by_user_key(a: RowKeyModel, b: RowKeyModel)
    requires
        a.project_id == b.project_id,
        a.dataset_id == b.dataset_id,
        a.table_id == b.table_id,
        a.truncation_id == b.truncation_id,
    ensures
        lex_lt(a.layout(), b.layout()) == lex_lt(a.user_key, b.user_key),
{
    lemma_lex_prefix(
        prefix_layout(a.project_id, a.dataset_id, a.table_id, a.truncation_id),
        a.user_key,
        b.user_key,
    );
}

} // verus!
