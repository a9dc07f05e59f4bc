//! The keys of the catalog's rows. Readers and writers share them, so that the two can never
//! disagree on where a row is.

use vstd::prelude::*;
use vstd::utf8::{
    encode_scalar, encode_utf8, last_continuation_byte, leading_byte_width_1, leading_byte_width_2,
    leading_byte_width_3, leading_byte_width_4, second_last_continuation_byte,
    third_last_continuation_byte,
};

use super::ids::{DatasetId, ProjectId, TruncationId};
use super::meta::{ColumnStats, StatsRow};
use crate::storage::bytes::{be_bytes, lemma_be_len, lemma_be_roundtrip, push_all, push_be};
use crate::storage::text::utf8_bytes;

verus! {

/// The key of a project: its name.
pub open spec fn project_path(name: Seq<char>) -> Seq<u8> {
    encode_utf8(name)
}

/// The key of a dataset: its project, then its name.
pub open spec fn dataset_path(project: ProjectId, name: Seq<char>) -> Seq<u8> {
    project_scope_path(project) + encode_utf8(name)
}

/// What the keys of all datasets of a project start with.
pub open spec fn project_scope_path(project: ProjectId) -> Seq<u8> {
    be_bytes(project.0.value as nat, 16)
}

/// What the keys of all tables of a dataset start with.
pub open spec fn dataset_scope_path(project: ProjectId, dataset: DatasetId) -> Seq<u8> {
    be_bytes(project.0.value as nat, 16) + be_bytes(dataset.0.value as nat, 16)
}

/// The key of one incarnation of a table: its dataset, its name, and the incarnation in eight
/// bytes.
pub open spec fn table_path(
    project: ProjectId,
    dataset: DatasetId,
    name: Seq<char>,
    truncation: TruncationId,
) -> Seq<u8> {
    dataset_scope_path(project, dataset) + encode_utf8(name) + be_bytes(truncation.0 as nat, 8)
}

/// The key of a column's statistics: three names, each closed by a zero byte.
pub open spec fn stats_path(stats: StatsRow) -> Seq<u8> {
    encode_utf8(stats.schemaname) + seq![0u8] + encode_utf8(stats.tablename) + seq![0u8]
        + encode_utf8(stats.attname) + seq![0u8]
}

/// The sixteen bytes of a project's id.
pub fn project_scope(project: ProjectId) -> (r: Vec<u8>)
    ensures
        r@ == project_scope_path(project),
{
    let mut key: Vec<u8> = Vec::new();
    push_be(&mut key, project.0.value, 16);
    assert(key@ =~= project_scope_path(project));
    key
}

pub fn dataset_key(project: ProjectId, name: &str) -> (r: Vec<u8>)
    ensures
        r@ == dataset_path(project, name@),
{
    let mut key = project_scope(project);
    let text = utf8_bytes(name);
    push_all(&mut key, text.as_slice());
    key
}

pub fn dataset_scope(project: ProjectId, dataset: DatasetId) -> (r: Vec<u8>)
    ensures
        r@ == dataset_scope_path(project, dataset),
{
    let mut key = project_scope(project);
    push_be(&mut key, dataset.0.value, 16);
    key
}

pub fn table_key(
    project: ProjectId,
    dataset: DatasetId,
    name: &str,
    truncation: TruncationId,
) -> (r: Vec<u8>)
    ensures
        r@ == table_path(project, dataset, name@, truncation),
{
    let mut key = dataset_scope(project, dataset);
    let text = utf8_bytes(name);
    push_all(&mut key, text.as_slice());
    push_be(&mut key, truncation.0 as u128, 8);
    key
}

pub fn stats_key(stats: &ColumnStats) -> (r: Vec<u8>)
    ensures
        r@ == stats_path(stats@),
{
    let mut key = utf8_bytes(stats.schemaname.as_str());
    key.push(0);
    let table = utf8_bytes(stats.tablename.as_str());
    push_all(&mut key, table.as_slice());
    key.push(0);
    let column = utf8_bytes(stats.attname.as_str());
    push_all(&mut key, column.as_slice());
    key.push(0);
    assert(key@ =~= stats_path(stats@));
    key
}

proof fn lemma_id_bytes(a: u128, b: u128)
    requires
        be_bytes(a as nat, 16) == be_bytes(b as nat, 16),
    ensures
        a == b,
{
    crate::storage::bytes::lemma_pow256_values();
    lemma_be_roundtrip(a as nat, 16);
    lemma_be_roundtrip(b as nat, 16);
}

proof fn lemma_text_bytes(a: Seq<char>, b: Seq<char>)
    requires
        encode_utf8(a) == encode_utf8(b),
    ensures
        a == b,
{
    vstd::utf8::encode_utf8_decode_utf8(a);
    vstd::utf8::encode_utf8_decode_utf8(b);
}

/// Different projects have different keys.
pub proof fn law_project_keys_are_injective(a: Seq<char>, b: Seq<char>)
    requires
        project_path(a) == project_path(b),
    ensures
        a == b,
{
    lemma_text_bytes(a, b);
}

/// Different datasets have different keys, across projects too.
pub proof fn law_dataset_keys_are_injective(p: ProjectId, a: Seq<char>, q: ProjectId, b: Seq<char>)
    requires
        dataset_path(p, a) == dataset_path(q, b),
    ensures
        p == q,
        a == b,
{
    lemma_be_len(p.0.value as nat, 16);
    lemma_be_len(q.0.value as nat, 16);
    assert(dataset_path(p, a).take(16) =~= be_bytes(p.0.value as nat, 16));
    assert(dataset_path(q, b).take(16) =~= be_bytes(q.0.value as nat, 16));
    lemma_id_bytes(p.0.value, q.0.value);
    assert(dataset_path(p, a).skip(16) =~= encode_utf8(a));
    assert(dataset_path(q, b).skip(16) =~= encode_utf8(b));
    lemma_text_bytes(a, b);
}

/// Different incarnations have different keys, across tables, datasets and projects too.
pub proof fn law_table_keys_are_injective(
    p: ProjectId,
    d: DatasetId,
    a: Seq<char>,
    i: TruncationId,
    q: ProjectId,
    e: DatasetId,
    b: Seq<char>,
    j: TruncationId,
)
    requires
        table_path(p, d, a, i) == table_path(q, e, b, j),
    ensures
        p == q,
        d == e,
        a == b,
        i == j,
{
    let k = table_path(p, d, a, i);
    lemma_scope_len(p, d);
    lemma_scope_len(q, e);
    lemma_be_len(i.0 as nat, 8);
    lemma_be_len(j.0 as nat, 8);
    assert(k.take(32) =~= dataset_scope_path(p, d));
    assert(k.take(32) =~= dataset_scope_path(q, e));
    law_scopes_are_injective(p, d, q, e);
    assert(k.subrange(32, k.len() - 8) =~= encode_utf8(a));
    assert(k.subrange(32, k.len() - 8) =~= encode_utf8(b));
    lemma_text_bytes(a, b);
    assert(k.skip(k.len() - 8) =~= be_bytes(i.0 as nat, 8));
    assert(k.skip(k.len() - 8) =~= be_bytes(j.0 as nat, 8));
    crate::storage::bytes::lemma_pow256_values();
    lemma_be_roundtrip(i.0 as nat, 8);
    lemma_be_roundtrip(j.0 as nat, 8);
}

/// A dataset's scope is 32 bytes.
pub proof fn lemma_scope_len(p: ProjectId, d: DatasetId)
    ensures
        dataset_scope_path(p, d).len() == 32,
        project_scope_path(p).len() == 16,
{
    lemma_be_len(p.0.value as nat, 16);
    lemma_be_len(d.0.value as nat, 16);
}

/// Different datasets have different scopes.
pub proof fn law_scopes_are_injective(p: ProjectId, d: DatasetId, q: ProjectId, e: DatasetId)
    requires
        dataset_scope_path(p, d) == dataset_scope_path(q, e),
    ensures
        p == q,
        d == e,
{
    let k = dataset_scope_path(p, d);
    lemma_be_len(p.0.value as nat, 16);
    lemma_be_len(d.0.value as nat, 16);
    lemma_be_len(q.0.value as nat, 16);
    lemma_be_len(e.0.value as nat, 16);
    assert(k.take(16) =~= be_bytes(p.0.value as nat, 16));
    assert(k.take(16) =~= be_bytes(q.0.value as nat, 16));
    assert(k.skip(16) =~= be_bytes(d.0.value as nat, 16));
    assert(k.skip(16) =~= be_bytes(e.0.value as nat, 16));
    lemma_id_bytes(p.0.value, q.0.value);
    lemma_id_bytes(d.0.value, e.0.value);
}

proof fn lemma_scalar_bytes(c: u32)
    by (bit_vector)
    ensures
        0 < c <= 0x7f ==> leading_byte_width_1(c) != 0,
        leading_byte_width_2(c) != 0,
        leading_byte_width_3(c) != 0,
        leading_byte_width_4(c) != 0,
        last_continuation_byte(c) != 0,
        second_last_continuation_byte(c) != 0,
        third_last_continuation_byte(c) != 0,
{
}

/// A name without a zero character has no zero byte.
proof fn lemma_no_zero_byte(name: Seq<char>)
    requires
        !name.contains('\0'),
    ensures
        !encode_utf8(name).contains(0),
    decreases name.len(),
{
    if name.len() > 0 {
        let rest = name.drop_first();
        assert forall|i: int| 0 <= i < rest.len() implies rest[i] != '\0' by {
            assert(rest[i] == name[i + 1]);
        }
        lemma_no_zero_byte(rest);
        assert(name[0] != '\0');
        let c = name[0] as u32;
        vstd::utf8::char_is_scalar(name[0]);
        vstd::utf8::char_u32_cast(name[0], c);
        vstd::utf8::char_u32_cast('\0', 0);
        lemma_scalar_bytes(c);
        let head = encode_scalar(c);
        let all = encode_utf8(name);
        assert(all == head + encode_utf8(rest));
        assert forall|i: int| 0 <= i < all.len() implies all[i] != 0 by {
            if i < head.len() {
                assert(all[i] == head[i]);
                assert(head[i] != 0);
            } else {
                assert(encode_utf8(rest).contains(encode_utf8(rest)[i - head.len()]));
                assert(all[i] == encode_utf8(rest)[i - head.len()]);
            }
        }
    }
}

/// Two strings that are closed by their first zero byte are told apart from what follows.
proof fn lemma_closed(a: Seq<u8>, u: Seq<u8>, b: Seq<u8>, v: Seq<u8>)
    requires
        !a.contains(0),
        !b.contains(0),
        a + seq![0u8] + u == b + seq![0u8] + v,
    ensures
        a == b,
        u == v,
{
    let s = a + seq![0u8] + u;
    if a.len() < b.len() {
        assert(s[a.len() as int] == 0);
        assert(s[a.len() as int] == b[a.len() as int]);
    }
    if b.len() < a.len() {
        assert(s[b.len() as int] == 0);
        assert(s[b.len() as int] == a[b.len() as int]);
    }
    assert(a =~= s.take(a.len() as int));
    assert(b =~= s.take(b.len() as int));
    assert(u =~= s.skip(a.len() as int + 1));
    assert(v =~= s.skip(b.len() as int + 1));
}

/// Whether the names that a column's statistics are kept under hold no zero character.
pub open spec fn plain_names(stats: StatsRow) -> bool {
    !stats.schemaname.contains('\0') && !stats.tablename.contains('\0')
        && !stats.attname.contains('\0')
}

/// The statistics of different columns have different keys: the zero bytes keep the names
/// apart.
pub proof fn law_stats_keys_are_injective(a: StatsRow, b: StatsRow)
    requires
        plain_names(a),
        plain_names(b),
        stats_path(a) == stats_path(b),
    ensures
        a.schemaname == b.schemaname,
        a.tablename == b.tablename,
        a.attname == b.attname,
{
    let (s, t, c) = (encode_utf8(a.schemaname), encode_utf8(a.tablename), encode_utf8(a.attname));
    let (x, y, z) = (encode_utf8(b.schemaname), encode_utf8(b.tablename), encode_utf8(b.attname));
    lemma_no_zero_byte(a.schemaname);
    lemma_no_zero_byte(b.schemaname);
    lemma_no_zero_byte(a.tablename);
    lemma_no_zero_byte(b.tablename);
    let (u, v) = (t + seq![0u8] + c + seq![0u8], y + seq![0u8] + z + seq![0u8]);
    assert(stats_path(a) =~= s + seq![0u8] + u);
    assert(stats_path(b) =~= x + seq![0u8] + v);
    lemma_closed(s, u, x, v);
    assert(u =~= t + seq![0u8] + (c + seq![0u8]));
    assert(v =~= y + seq![0u8] + (z + seq![0u8]));
    lemma_closed(t, c + seq![0u8], y, z + seq![0u8]);
    assert(c =~= (c + seq![0u8]).drop_last());
    assert(z =~= (z + seq![0u8]).drop_last());
    lemma_text_bytes(a.schemaname, b.schemaname);
    lemma_text_bytes(a.tablename, b.tablename);
    lemma_text_bytes(a.attname, b.attname);
}

} // verus!
