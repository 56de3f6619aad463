//! A digest of everything a store holds, whatever pages or host paths hold it: tables, rows and
//! files are put in order, and every part is framed.

use vstd::multiset::Multiset;
use vstd::prelude::*;
use vstd::string::*;

use crate::bytemap::precedes;
use crate::digest::{Transcript, sha256_of};
use crate::framing::{
    be64, be64_bytes, be64_signed, be64_signed_bytes, domain_hasher, frame, hash_frame, hash_text,
    hash_u64, law_frame_is_self_delimiting, lemma_be64_determines, lemma_be64_length,
    lemma_be64_signed_determines, lemma_regroup, lemma_split, lemma_utf8_determines, utf8,
};
use crate::sorting::{
    Keyed, is_sorted_form, law_distinct_keys_have_one_order, law_sorted_form_forgets_the_order,
    lemma_distinct_keys_move, lemma_mapped_bags, lemma_sorted_form_exists, sort_by_key,
    sort_byte_strings, sorted, views,
};
use crate::tokens::{quoted, quoted_text};
use crate::text::{append_bytes, copy_bytes};

verus! {

/// A value in a column. A floating-point value is held by its bits.
#[derive(Clone, Debug)]
pub enum SqlValue {
    Null,
    Integer(i64),
    Real(u64),
    Text(Vec<u8>),
    Blob(Vec<u8>),
}

/// The mathematical content of a [`SqlValue`].
#[verifier::ext_equal]
pub enum SqlView {
    Null,
    Integer(i64),
    Real(u64),
    Text(Seq<u8>),
    Blob(Seq<u8>),
}

impl View for SqlValue {
    type V = SqlView;

    open spec fn view(&self) -> SqlView {
        match self {
            SqlValue::Null => SqlView::Null,
            SqlValue::Integer(value) => SqlView::Integer(*value),
            SqlValue::Real(bits) => SqlView::Real(*bits),
            SqlValue::Text(bytes) => SqlView::Text(bytes@),
            SqlValue::Blob(bytes) => SqlView::Blob(bytes@),
        }
    }
}

/// The bytes of a value: a tag for its kind, and then what it holds.
pub open spec fn encoded_value(value: SqlView) -> Seq<u8> {
    match value {
        SqlView::Null => seq![0u8],
        SqlView::Integer(value) => seq![1u8] + be64_signed(value as int),
        SqlView::Real(bits) => seq![2u8] + be64(bits as int),
        SqlView::Text(bytes) => seq![3u8] + frame(bytes),
        SqlView::Blob(bytes) => seq![4u8] + frame(bytes),
    }
}

/// The bytes of values, one behind the other.
pub open spec fn encoded_values(values: Seq<SqlView>) -> Seq<u8>
    decreases values.len(),
{
    if values.len() == 0 {
        Seq::empty()
    } else {
        encoded_values(values.drop_last()) + encoded_value(values.last())
    }
}

/// The bytes of a row: how many columns it has, and their values.
pub open spec fn encoded_row(row: Seq<SqlView>) -> Seq<u8> {
    be64(row.len() as int) + encoded_values(row)
}

/// Appends the bytes of a value.
pub fn encode_sql_value(output: &mut Vec<u8>, value: &SqlValue)
    ensures
        final(output)@ == old(output)@ + encoded_value(value@),
{
    match value {
        SqlValue::Null => {
            output.push(0);
        },
        SqlValue::Integer(value) => {
            output.push(1);
            append_bytes(output, be64_signed_bytes(*value).as_slice());
        },
        SqlValue::Real(bits) => {
            output.push(2);
            append_bytes(output, be64_bytes(*bits).as_slice());
        },
        SqlValue::Text(bytes) => {
            output.push(3);
            append_bytes(output, be64_bytes(bytes.len() as u64).as_slice());
            append_bytes(output, bytes.as_slice());
        },
        SqlValue::Blob(bytes) => {
            output.push(4);
            append_bytes(output, be64_bytes(bytes.len() as u64).as_slice());
            append_bytes(output, bytes.as_slice());
        },
    }
    assert(output@ =~= old(output)@ + encoded_value(value@));
}

/// The mathematical content of a row.
pub open spec fn row_view(row: Vec<SqlValue>) -> Seq<SqlView> {
    views(row@)
}

/// Writes a row as bytes.
pub fn encode_row(row: &Vec<SqlValue>) -> (bytes: Vec<u8>)
    ensures
        bytes@ == encoded_row(row_view(*row)),
{
    let ghost all = row_view(*row);
    let mut bytes = copy_bytes(be64_bytes(row.len() as u64).as_slice());
    let mut i: usize = 0;
    assert(all.subrange(0, 0) =~= Seq::<SqlView>::empty());
    assert(bytes@ =~= be64(all.len() as int) + encoded_values(all.subrange(0, 0)));
    while i < row.len()
        invariant
            all == row_view(*row),
            i <= row@.len(),
            bytes@ == be64(all.len() as int) + encoded_values(all.subrange(0, i as int)),
        decreases row@.len() - i,
    {
        let ghost before = bytes@;
        encode_sql_value(&mut bytes, &row[i]);
        proof {
            let longer = all.subrange(0, i + 1);
            assert(longer.drop_last() =~= all.subrange(0, i as int));
            assert(longer.last() == row@[i as int]@);
            lemma_regroup(
                be64(all.len() as int),
                encoded_values(all.subrange(0, i as int)),
                encoded_value(row@[i as int]@),
            );
        }
        i += 1;
    }
    assert(all.subrange(0, i as int) =~= all);
    bytes
}

/// What a table holds, and the statement that made it.
#[derive(Clone, Debug)]
pub struct TableContent {
    pub name: String,
    pub schema_sql: String,
    pub rows: Vec<Vec<SqlValue>>,
}

/// The mathematical content of a [`TableContent`].
#[verifier::ext_equal]
pub struct TableView {
    pub name: Seq<char>,
    pub schema_sql: Seq<char>,
    pub rows: Seq<Seq<SqlView>>,
}

impl View for TableContent {
    type V = TableView;

    open spec fn view(&self) -> TableView {
        TableView {
            name: self.name@,
            schema_sql: self.schema_sql@,
            rows: self.rows@.map_values(|row: Vec<SqlValue>| row_view(row)),
        }
    }
}

impl Keyed for TableContent {
    open spec fn key(value: TableView) -> Seq<u8> {
        utf8(value.name)
    }

    fn key_bytes(&self) -> (key: &[u8]) {
        self.name.as_str().as_bytes()
    }
}

/// The bytes of the rows of a table.
pub open spec fn encoded_rows(rows: Seq<Seq<SqlView>>) -> Seq<Seq<u8>> {
    rows.map_values(|row: Seq<SqlView>| encoded_row(row))
}

/// Byte strings, each framed, one behind the other.
pub open spec fn frames(list: Seq<Seq<u8>>) -> Seq<u8>
    decreases list.len(),
{
    if list.len() == 0 {
        Seq::empty()
    } else {
        frames(list.drop_last()) + frame(list.last())
    }
}

/// What is hashed of a table: its name, its statement, and its rows in the order of their bytes.
pub open spec fn table_transcript(table: TableView) -> Seq<u8> {
    let rows = sorted(encoded_rows(table.rows));
    frame(utf8(table.name)) + frame(utf8(table.schema_sql)) + be64(table.rows.len() as int)
        + frames(rows)
}

/// What is hashed of tables, one behind the other.
pub open spec fn tables_transcript(tables: Seq<TableView>) -> Seq<u8>
    decreases tables.len(),
{
    if tables.len() == 0 {
        Seq::empty()
    } else {
        tables_transcript(tables.drop_last()) + table_transcript(tables.last())
    }
}

/// What is hashed of a database.
pub open spec fn database_transcript(tables: Seq<TableView>) -> Seq<u8> {
    utf8("naome-memory:sqlite:logical-state:v1\0"@) + be64(tables.len() as int)
        + tables_transcript(tables)
}

fn encode_rows(rows: &Vec<Vec<SqlValue>>) -> (encoded: Vec<Vec<u8>>)
    ensures
        views(encoded@) == encoded_rows(
            rows@.map_values(|row: Vec<SqlValue>| row_view(row)),
        ),
{
    let mut encoded: Vec<Vec<u8>> = Vec::new();
    let mut i: usize = 0;
    while i < rows.len()
        invariant
            i <= rows@.len(),
            encoded@.len() == i,
            forall|k: int| 0 <= k < i ==> (#[trigger] encoded@[k])@ == encoded_row(row_view(rows@[k])),
        decreases rows@.len() - i,
    {
        encoded.push(encode_row(&rows[i]));
        i += 1;
    }
    assert(views(encoded@) =~= encoded_rows(
        rows@.map_values(|row: Vec<SqlValue>| row_view(row)),
    ));
    encoded
}

fn hash_frames(transcript: Transcript, list: &Vec<Vec<u8>>) -> (next: Transcript)
    ensures
        next@ == transcript@ + frames(views(list@)),
{
    let ghost all = views(list@);
    let ghost start = transcript@;
    let mut next = transcript;
    let mut i: usize = 0;
    assert(all.subrange(0, 0) =~= Seq::<Seq<u8>>::empty());
    assert(next@ =~= start + frames(all.subrange(0, 0)));
    while i < list.len()
        invariant
            all == views(list@),
            i <= list@.len(),
            next@ == start + frames(all.subrange(0, i as int)),
        decreases list@.len() - i,
    {
        next = hash_frame(next, list[i].as_slice());
        proof {
            let longer = all.subrange(0, i + 1);
            assert(longer.drop_last() =~= all.subrange(0, i as int));
            assert(longer.last() == list@[i as int]@);
            lemma_regroup(start, frames(all.subrange(0, i as int)), frame(list@[i as int]@));
        }
        i += 1;
    }
    assert(all.subrange(0, i as int) =~= all);
    next
}

fn hash_table(transcript: Transcript, table: &TableContent) -> (next: Transcript)
    ensures
        next@ == transcript@ + table_transcript(table@),
{
    let ghost start = transcript@;
    let encoded = encode_rows(&table.rows);
    let ordered = sort_byte_strings(encoded);
    let named = hash_text(transcript, table.name.as_str());
    let stated = hash_text(named, table.schema_sql.as_str());
    let counted = hash_u64(stated, table.rows.len() as u64);
    let next = hash_frames(counted, &ordered);
    assert(next@ =~= start + table_transcript(table@));
    next
}

/// The digest of everything in a database, from its tables in the order of their names.
pub fn logical_database_digest(tables: &Vec<TableContent>) -> (digest: [u8; 32])
    ensures
        digest@ == sha256_of(database_transcript(views(tables@))),
{
    let ghost all = views(tables@);
    let ghost head = utf8("naome-memory:sqlite:logical-state:v1\0"@) + be64(all.len() as int);
    let mut transcript = hash_u64(
        domain_hasher("naome-memory:sqlite:logical-state:v1\0"),
        tables.len() as u64,
    );
    let mut i: usize = 0;
    assert(all.subrange(0, 0) =~= Seq::<TableView>::empty());
    assert(transcript@ =~= head + tables_transcript(all.subrange(0, 0)));
    while i < tables.len()
        invariant
            all == views(tables@),
            i <= tables@.len(),
            transcript@ == head + tables_transcript(all.subrange(0, i as int)),
        decreases tables@.len() - i,
    {
        transcript = hash_table(transcript, &tables[i]);
        proof {
            let longer = all.subrange(0, i + 1);
            assert(longer.drop_last() =~= all.subrange(0, i as int));
            assert(longer.last() == tables@[i as int]@);
            lemma_regroup(
                head,
                tables_transcript(all.subrange(0, i as int)),
                table_transcript(tables@[i as int]@),
            );
        }
        i += 1;
    }
    assert(all.subrange(0, i as int) =~= all);
    transcript.finish()
}

/// The statement that reads all rows of a table.
pub fn table_query(table_name: &str) -> (query: String)
    ensures
        query@ == "SELECT * FROM "@ + quoted(table_name@),
{
    let name = quoted_text(table_name);
    crate::text::text2("SELECT * FROM ", name.as_str())
}

// ---------------------------------------------------------------------------------------------
// Files

/// A file below the root of the artifact tree.
#[derive(Clone, Debug)]
pub struct TreeEntry {
    pub relative_path: String,
    pub byte_len: u64,
    pub digest: [u8; 32],
}

/// The mathematical content of a [`TreeEntry`].
#[verifier::ext_equal]
pub struct TreeEntryView {
    pub relative_path: Seq<char>,
    pub byte_len: u64,
    pub digest: Seq<u8>,
}

impl View for TreeEntry {
    type V = TreeEntryView;

    open spec fn view(&self) -> TreeEntryView {
        TreeEntryView {
            relative_path: self.relative_path@,
            byte_len: self.byte_len,
            digest: self.digest@,
        }
    }
}

impl Keyed for TreeEntry {
    open spec fn key(value: TreeEntryView) -> Seq<u8> {
        utf8(value.relative_path)
    }

    fn key_bytes(&self) -> (key: &[u8]) {
        self.relative_path.as_str().as_bytes()
    }
}

/// What is hashed of a file.
pub open spec fn entry_transcript(entry: TreeEntryView) -> Seq<u8> {
    frame(utf8(entry.relative_path)) + be64(entry.byte_len as int) + entry.digest
}

/// What is hashed of files, one behind the other.
pub open spec fn entries_transcript(entries: Seq<TreeEntryView>) -> Seq<u8>
    decreases entries.len(),
{
    if entries.len() == 0 {
        Seq::empty()
    } else {
        entries_transcript(entries.drop_last()) + entry_transcript(entries.last())
    }
}

/// What is hashed of an artifact tree whose files stand in this order.
pub open spec fn tree_transcript(entries: Seq<TreeEntryView>) -> Seq<u8> {
    utf8("naome-memory:sqlite:artifact-tree:v1\0"@) + be64(entries.len() as int)
        + entries_transcript(entries)
}

/// Whether `ordered` holds the files of a tree in the order of their paths.
pub open spec fn is_ordered_tree(
    entries: Seq<TreeEntryView>,
    ordered: Seq<TreeEntryView>,
) -> bool {
    is_sorted_form(entries, ordered, |entry: TreeEntryView| <TreeEntry as Keyed>::key(entry))
}

/// The digest of everything in an artifact tree: its files in the order of their paths.
pub fn logical_artifact_tree_digest(entries: Vec<TreeEntry>) -> (digest: [u8; 32])
    ensures
        exists|ordered: Seq<TreeEntryView>|
            #[trigger] is_ordered_tree(views(entries@), ordered) && digest@ == sha256_of(
                tree_transcript(ordered),
            ),
{
    let ghost found = views(entries@);
    let ordered = sort_by_key(entries);
    let ghost all = views(ordered@);
    let ghost head = utf8("naome-memory:sqlite:artifact-tree:v1\0"@) + be64(all.len() as int);
    assert(is_ordered_tree(found, all));
    let mut transcript = hash_u64(
        domain_hasher("naome-memory:sqlite:artifact-tree:v1\0"),
        ordered.len() as u64,
    );
    let mut i: usize = 0;
    assert(all.subrange(0, 0) =~= Seq::<TreeEntryView>::empty());
    assert(transcript@ =~= head + entries_transcript(all.subrange(0, 0)));
    while i < ordered.len()
        invariant
            all == views(ordered@),
            i <= ordered@.len(),
            transcript@ == head + entries_transcript(all.subrange(0, i as int)),
        decreases ordered@.len() - i,
    {
        let entry = &ordered[i];
        let ghost before = transcript@;
        let named = hash_text(transcript, entry.relative_path.as_str());
        transcript = hash_u64(named, entry.byte_len).update(entry.digest.as_slice());
        proof {
            let longer = all.subrange(0, i + 1);
            assert(longer.drop_last() =~= all.subrange(0, i as int));
            assert(longer.last() == entry@);
            assert(transcript@ =~= before + entry_transcript(entry@));
            lemma_regroup(
                head,
                entries_transcript(all.subrange(0, i as int)),
                entry_transcript(entry@),
            );
        }
        i += 1;
    }
    assert(all.subrange(0, i as int) =~= all);
    transcript.finish()
}

/// The digest of everything a store holds, from the digests of its database and of its artifact
/// tree.
pub open spec fn state_digest(database: Seq<u8>, artifacts: Seq<u8>) -> Seq<u8> {
    sha256_of(utf8("naome-memory:sqlite:repository-state:v1\0"@) + database + artifacts)
}

/// The digest of everything a store holds, from the digests of its database and of its artifact
/// tree.
pub fn repository_state_digest(database: &[u8; 32], artifacts: &[u8; 32]) -> (digest: [u8; 32])
    ensures
        digest@ == state_digest(database@, artifacts@),
{
    domain_hasher("naome-memory:sqlite:repository-state:v1\0").update(database.as_slice()).update(
        artifacts.as_slice(),
    ).finish()
}

/// Whether `ordered` holds the tables of a database in the order of their names.
pub open spec fn is_ordered_database(tables: Seq<TableView>, ordered: Seq<TableView>) -> bool {
    is_sorted_form(tables, ordered, |table: TableView| <TableContent as Keyed>::key(table))
}

/// Whether a digest is that of a state: of its tables in the order of their names and of its files
/// in the order of their paths.
pub open spec fn is_digest_of_state(
    digest: Seq<u8>,
    tables: Seq<TableView>,
    entries: Seq<TreeEntryView>,
) -> bool {
    exists|database: Seq<TableView>, tree: Seq<TreeEntryView>|
        #[trigger] is_ordered_database(tables, database) && #[trigger] is_ordered_tree(
            entries,
            tree,
        ) && digest == state_digest(
            sha256_of(database_transcript(database)),
            sha256_of(tree_transcript(tree)),
        )
}

/// The digest of every row and every artifact of a store.
pub fn logical_state_digest(tables: Vec<TableContent>, entries: Vec<TreeEntry>) -> (digest: [u8;
    32])
    ensures
        is_digest_of_state(digest@, views(tables@), views(entries@)),
{
    let ghost found = views(tables@);
    let ordered = sort_by_key(tables);
    assert(is_ordered_database(found, views(ordered@)));
    let database = logical_database_digest(&ordered);
    let artifacts = logical_artifact_tree_digest(entries);
    repository_state_digest(&database, &artifacts)
}

// ---------------------------------------------------------------------------------------------
// What the transcripts keep

/// Whether the byte strings in a value have lengths that eight bytes can hold.
pub open spec fn is_measured(value: SqlView) -> bool {
    match value {
        SqlView::Text(bytes) => bytes.len() <= u64::MAX,
        SqlView::Blob(bytes) => bytes.len() <= u64::MAX,
        _ => true,
    }
}

/// The bytes of a value say where they end, and determine the value.
pub proof fn law_encoded_value_is_self_delimiting(a: SqlView, x: Seq<u8>, b: SqlView, y: Seq<u8>)
    requires
        is_measured(a),
        is_measured(b),
        encoded_value(a) + x == encoded_value(b) + y,
    ensures
        a == b,
        x == y,
{
    let left = encoded_value(a) + x;
    let right = encoded_value(b) + y;
    assert(left[0] == encoded_value(a)[0]);
    assert(right[0] == encoded_value(b)[0]);
    match (a, b) {
        (SqlView::Null, SqlView::Null) => {
            lemma_split(seq![0u8], x, seq![0u8], y);
        },
        (SqlView::Integer(m), SqlView::Integer(n)) => {
            lemma_be64_length(m as int);
            lemma_be64_length(n as int);
            lemma_be64_length(m + 0x1_0000_0000_0000_0000);
            lemma_be64_length(n + 0x1_0000_0000_0000_0000);
            lemma_split(encoded_value(a), x, encoded_value(b), y);
            lemma_split(seq![1u8], be64_signed(m as int), seq![1u8], be64_signed(n as int));
            lemma_be64_signed_determines(m, n);
        },
        (SqlView::Real(m), SqlView::Real(n)) => {
            lemma_be64_length(m as int);
            lemma_be64_length(n as int);
            lemma_split(encoded_value(a), x, encoded_value(b), y);
            lemma_split(seq![2u8], be64(m as int), seq![2u8], be64(n as int));
            lemma_be64_determines(m as int, n as int);
        },
        (SqlView::Text(m), SqlView::Text(n)) => {
            lemma_regroup(seq![3u8], frame(m), x);
            lemma_regroup(seq![3u8], frame(n), y);
            lemma_split(seq![3u8], frame(m) + x, seq![3u8], frame(n) + y);
            law_frame_is_self_delimiting(m, x, n, y);
        },
        (SqlView::Blob(m), SqlView::Blob(n)) => {
            lemma_regroup(seq![4u8], frame(m), x);
            lemma_regroup(seq![4u8], frame(n), y);
            lemma_split(seq![4u8], frame(m) + x, seq![4u8], frame(n) + y);
            law_frame_is_self_delimiting(m, x, n, y);
        },
        _ => {},
    }
}

proof fn lemma_values_shift(first: SqlView, rest: Seq<SqlView>)
    ensures
        encoded_values(seq![first] + rest) == encoded_value(first) + encoded_values(rest),
    decreases rest.len(),
{
    let all = seq![first] + rest;
    if rest.len() == 0 {
        assert(all.drop_last() =~= Seq::<SqlView>::empty());
        assert(encoded_values(all.drop_last()) =~= Seq::<u8>::empty());
        assert(encoded_values(all) =~= encoded_value(first) + encoded_values(rest));
    } else {
        lemma_values_shift(first, rest.drop_last());
        assert(all.drop_last() =~= seq![first] + rest.drop_last());
        lemma_regroup(
            encoded_value(first),
            encoded_values(rest.drop_last()),
            encoded_value(rest.last()),
        );
    }
}

proof fn lemma_values_determine(a: Seq<SqlView>, b: Seq<SqlView>)
    requires
        a.len() == b.len(),
        forall|i: int| 0 <= i < a.len() ==> is_measured(#[trigger] a[i]),
        forall|i: int| 0 <= i < b.len() ==> is_measured(#[trigger] b[i]),
        encoded_values(a) == encoded_values(b),
    ensures
        a == b,
    decreases a.len(),
{
    if a.len() == 0 {
        assert(a =~= b);
    } else {
        let left = a.subrange(1, a.len() as int);
        let right = b.subrange(1, b.len() as int);
        assert(a =~= seq![a[0]] + left);
        assert(b =~= seq![b[0]] + right);
        lemma_values_shift(a[0], left);
        lemma_values_shift(b[0], right);
        law_encoded_value_is_self_delimiting(
            a[0],
            encoded_values(left),
            b[0],
            encoded_values(right),
        );
        lemma_values_determine(left, right);
    }
}

/// The bytes of a row determine the row.
pub proof fn law_encoded_row_determines_the_row(a: Seq<SqlView>, b: Seq<SqlView>)
    requires
        a.len() <= u64::MAX,
        b.len() <= u64::MAX,
        forall|i: int| 0 <= i < a.len() ==> is_measured(#[trigger] a[i]),
        forall|i: int| 0 <= i < b.len() ==> is_measured(#[trigger] b[i]),
        encoded_row(a) == encoded_row(b),
    ensures
        a == b,
{
    lemma_be64_length(a.len() as int);
    lemma_be64_length(b.len() as int);
    lemma_split(be64(a.len() as int), encoded_values(a), be64(b.len() as int), encoded_values(b));
    lemma_be64_determines(a.len() as int, b.len() as int);
    lemma_values_determine(a, b);
}

/// The digest of a table does not depend on the order in which its rows come: tables with one
/// name, one statement and the same rows, each as often, are hashed alike.
pub proof fn law_row_order_does_not_matter(a: TableView, b: TableView)
    requires
        a.name == b.name,
        a.schema_sql == b.schema_sql,
        encoded_rows(a.rows).to_multiset() == encoded_rows(b.rows).to_multiset(),
    ensures
        table_transcript(a) == table_transcript(b),
{
    law_sorted_form_forgets_the_order(encoded_rows(a.rows), encoded_rows(b.rows));
    encoded_rows(a.rows).to_multiset_ensures();
    encoded_rows(b.rows).to_multiset_ensures();
}

proof fn lemma_frames_shift(first: Seq<u8>, rest: Seq<Seq<u8>>)
    ensures
        frames(seq![first] + rest) == frame(first) + frames(rest),
    decreases rest.len(),
{
    let all = seq![first] + rest;
    if rest.len() == 0 {
        assert(all.drop_last() =~= Seq::<Seq<u8>>::empty());
        assert(frames(all.drop_last()) =~= Seq::<u8>::empty());
        assert(frames(all) =~= frame(first) + frames(rest));
    } else {
        lemma_frames_shift(first, rest.drop_last());
        assert(all.drop_last() =~= seq![first] + rest.drop_last());
        lemma_regroup(frame(first), frames(rest.drop_last()), frame(rest.last()));
    }
}

proof fn lemma_frames_determine(
    a: Seq<Seq<u8>>,
    x: Seq<u8>,
    b: Seq<Seq<u8>>,
    y: Seq<u8>,
)
    requires
        a.len() == b.len(),
        forall|i: int| 0 <= i < a.len() ==> (#[trigger] a[i]).len() <= u64::MAX,
        forall|i: int| 0 <= i < b.len() ==> (#[trigger] b[i]).len() <= u64::MAX,
        frames(a) + x == frames(b) + y,
    ensures
        a == b,
        x == y,
    decreases a.len(),
{
    if a.len() == 0 {
        assert(a =~= b);
        lemma_split(frames(a), x, frames(b), y);
    } else {
        let left = a.subrange(1, a.len() as int);
        let right = b.subrange(1, b.len() as int);
        assert(a =~= seq![a[0]] + left);
        assert(b =~= seq![b[0]] + right);
        lemma_frames_shift(a[0], left);
        lemma_frames_shift(b[0], right);
        lemma_regroup(frame(a[0]), frames(left), x);
        lemma_regroup(frame(b[0]), frames(right), y);
        law_frame_is_self_delimiting(a[0], frames(left) + x, b[0], frames(right) + y);
        lemma_frames_determine(left, x, right, y);
    }
}

/// Whether the parts of a table have lengths that eight bytes can hold.
pub open spec fn is_measured_table(table: TableView) -> bool {
    &&& utf8(table.name).len() <= u64::MAX
    &&& utf8(table.schema_sql).len() <= u64::MAX
    &&& table.rows.len() <= u64::MAX
    &&& forall|i: int|
        0 <= i < table.rows.len() ==> encoded_row(#[trigger] table.rows[i]).len() <= u64::MAX
}

proof fn lemma_sorted_rows(table: TableView)
    requires
        is_measured_table(table),
    ensures
        sorted(encoded_rows(table.rows)).len() == table.rows.len(),
        forall|i: int|
            0 <= i < table.rows.len() ==> (#[trigger] sorted(encoded_rows(table.rows))[i]).len()
                <= u64::MAX,
{
    let rows = encoded_rows(table.rows);
    let ordered = sorted(rows);
    lemma_sorted_form_exists(rows);
    rows.to_multiset_ensures();
    ordered.to_multiset_ensures();
    assert forall|i: int| 0 <= i < ordered.len() implies (#[trigger] ordered[i]).len()
        <= u64::MAX by {
        assert(ordered.to_multiset().count(ordered[i]) > 0);
        assert(rows.contains(ordered[i]));
        let k = rows.index_of(ordered[i]);
        assert(rows[k] == encoded_row(table.rows[k]));
    }
}

/// What is hashed of a table says where it ends, and determines the name, the statement and the
/// rows up to their order.
pub proof fn law_table_transcript_is_self_delimiting(
    a: TableView,
    x: Seq<u8>,
    b: TableView,
    y: Seq<u8>,
)
    requires
        is_measured_table(a),
        is_measured_table(b),
        table_transcript(a) + x == table_transcript(b) + y,
    ensures
        utf8(a.name) == utf8(b.name),
        utf8(a.schema_sql) == utf8(b.schema_sql),
        encoded_rows(a.rows).to_multiset() == encoded_rows(b.rows).to_multiset(),
        x == y,
{
    let left = sorted(encoded_rows(a.rows));
    let right = sorted(encoded_rows(b.rows));
    let left_count = be64(a.rows.len() as int);
    let right_count = be64(b.rows.len() as int);
    lemma_sorted_rows(a);
    lemma_sorted_rows(b);
    lemma_be64_length(a.rows.len() as int);
    lemma_be64_length(b.rows.len() as int);
    let left_tail = frame(utf8(a.schema_sql)) + (left_count + (frames(left) + x));
    let right_tail = frame(utf8(b.schema_sql)) + (right_count + (frames(right) + y));
    assert(table_transcript(a) + x =~= frame(utf8(a.name)) + left_tail);
    assert(table_transcript(b) + y =~= frame(utf8(b.name)) + right_tail);
    law_frame_is_self_delimiting(utf8(a.name), left_tail, utf8(b.name), right_tail);
    law_frame_is_self_delimiting(
        utf8(a.schema_sql),
        left_count + (frames(left) + x),
        utf8(b.schema_sql),
        right_count + (frames(right) + y),
    );
    lemma_split(left_count, frames(left) + x, right_count, frames(right) + y);
    lemma_be64_determines(a.rows.len() as int, b.rows.len() as int);
    lemma_frames_determine(left, x, right, y);
    lemma_sorted_form_exists(encoded_rows(a.rows));
    lemma_sorted_form_exists(encoded_rows(b.rows));
}

proof fn lemma_tables_shift(first: TableView, rest: Seq<TableView>)
    ensures
        tables_transcript(seq![first] + rest) == table_transcript(first) + tables_transcript(rest),
    decreases rest.len(),
{
    let all = seq![first] + rest;
    if rest.len() == 0 {
        assert(all.drop_last() =~= Seq::<TableView>::empty());
        assert(tables_transcript(all.drop_last()) =~= Seq::<u8>::empty());
        assert(tables_transcript(all) =~= table_transcript(first) + tables_transcript(rest));
    } else {
        lemma_tables_shift(first, rest.drop_last());
        assert(all.drop_last() =~= seq![first] + rest.drop_last());
        lemma_regroup(
            table_transcript(first),
            tables_transcript(rest.drop_last()),
            table_transcript(rest.last()),
        );
    }
}

/// Whether two tables hold the same under the same name, whatever the order of their rows.
pub open spec fn same_content(a: TableView, b: TableView) -> bool {
    &&& a.name == b.name
    &&& a.schema_sql == b.schema_sql
    &&& encoded_rows(a.rows).to_multiset() == encoded_rows(b.rows).to_multiset()
}

proof fn lemma_tables_determine(a: Seq<TableView>, b: Seq<TableView>)
    requires
        a.len() == b.len(),
        forall|i: int| 0 <= i < a.len() ==> is_measured_table(#[trigger] a[i]),
        forall|i: int| 0 <= i < b.len() ==> is_measured_table(#[trigger] b[i]),
        tables_transcript(a) == tables_transcript(b),
    ensures
        forall|i: int| 0 <= i < a.len() ==> same_content(#[trigger] a[i], b[i]),
    decreases a.len(),
{
    if a.len() > 0 {
        let left = a.subrange(1, a.len() as int);
        let right = b.subrange(1, b.len() as int);
        assert(a =~= seq![a[0]] + left);
        assert(b =~= seq![b[0]] + right);
        lemma_tables_shift(a[0], left);
        lemma_tables_shift(b[0], right);
        law_table_transcript_is_self_delimiting(
            a[0],
            tables_transcript(left),
            b[0],
            tables_transcript(right),
        );
        lemma_utf8_determines(a[0].name, b[0].name);
        lemma_utf8_determines(a[0].schema_sql, b[0].schema_sql);
        lemma_tables_determine(left, right);
        assert forall|i: int| 0 <= i < a.len() implies same_content(#[trigger] a[i], b[i]) by {
            if i > 0 {
                assert(left[i - 1] == a[i]);
                assert(right[i - 1] == b[i]);
            }
        }
    }
}

/// What is hashed of a database determines the database up to the order of its rows: no two
/// databases that differ otherwise share one transcript.
pub proof fn law_database_transcript_determines_the_content(
    a: Seq<TableView>,
    b: Seq<TableView>,
)
    requires
        a.len() <= u64::MAX,
        b.len() <= u64::MAX,
        forall|i: int| 0 <= i < a.len() ==> is_measured_table(#[trigger] a[i]),
        forall|i: int| 0 <= i < b.len() ==> is_measured_table(#[trigger] b[i]),
        database_transcript(a) == database_transcript(b),
    ensures
        a.len() == b.len(),
        forall|i: int| 0 <= i < a.len() ==> same_content(#[trigger] a[i], b[i]),
{
    let domain = utf8("naome-memory:sqlite:logical-state:v1\0"@);
    let left = be64(a.len() as int);
    let right = be64(b.len() as int);
    lemma_regroup(domain, left, tables_transcript(a));
    lemma_regroup(domain, right, tables_transcript(b));
    lemma_split(domain, left + tables_transcript(a), domain, right + tables_transcript(b));
    lemma_be64_length(a.len() as int);
    lemma_be64_length(b.len() as int);
    lemma_split(left, tables_transcript(a), right, tables_transcript(b));
    lemma_be64_determines(a.len() as int, b.len() as int);
    lemma_tables_determine(a, b);
}

/// The name of a table, the statement that made it, and its rows, each as often as it occurs.
pub struct TableBag {
    pub name: Seq<char>,
    pub schema_sql: Seq<char>,
    pub rows: Multiset<Seq<u8>>,
}

/// What a table holds, whatever the order of its rows.
pub open spec fn table_bag(table: TableView) -> TableBag {
    TableBag {
        name: table.name,
        schema_sql: table.schema_sql,
        rows: encoded_rows(table.rows).to_multiset(),
    }
}

/// What each table of a database holds, whatever the order of its rows.
pub open spec fn table_bags(tables: Seq<TableView>) -> Seq<TableBag> {
    tables.map_values(|table: TableView| table_bag(table))
}

/// Whether no two tables of a database have one name.
pub open spec fn distinct_names(tables: Seq<TableView>) -> bool {
    forall|i: int, j: int|
        0 <= i < j < tables.len() ==> (#[trigger] tables[i]).name != (#[trigger] tables[j]).name
}

/// Whether no two files of a tree have one path.
pub open spec fn distinct_paths(entries: Seq<TreeEntryView>) -> bool {
    forall|i: int, j: int|
        0 <= i < j < entries.len() ==> (#[trigger] entries[i]).relative_path != (
        #[trigger] entries[j]).relative_path
}

proof fn lemma_tables_alike(a: Seq<TableView>, b: Seq<TableView>)
    requires
        table_bags(a) == table_bags(b),
    ensures
        tables_transcript(a) == tables_transcript(b),
    decreases a.len(),
{
    assert(a.len() == table_bags(a).len());
    assert(b.len() == table_bags(b).len());
    if a.len() > 0 {
        let place = a.len() - 1;
        assert(table_bags(a)[place] == table_bag(a[place]));
        assert(table_bags(b)[place] == table_bag(b[place]));
        law_row_order_does_not_matter(a[place], b[place]);
        assert(table_bags(a.drop_last()) =~= table_bags(a).drop_last());
        assert(table_bags(b.drop_last()) =~= table_bags(b).drop_last());
        lemma_tables_alike(a.drop_last(), b.drop_last());
    }
}

proof fn lemma_databases_alike(
    a: Seq<TableView>,
    b: Seq<TableView>,
    x: Seq<TableView>,
    y: Seq<TableView>,
)
    requires
        distinct_names(a),
        table_bags(a).to_multiset() == table_bags(b).to_multiset(),
        is_ordered_database(a, x),
        is_ordered_database(b, y),
    ensures
        database_transcript(x) == database_transcript(y),
{
    let bag = |table: TableView| table_bag(table);
    let name = |table: TableBag| utf8(table.name);
    let key = |table: TableView| <TableContent as Keyed>::key(table);
    lemma_mapped_bags(x, a, bag);
    lemma_mapped_bags(y, b, bag);
    let left = table_bags(x);
    let right = table_bags(y);
    assert(left =~= x.map_values(bag));
    assert(right =~= y.map_values(bag));
    assert(table_bags(a) =~= a.map_values(bag));
    assert(table_bags(b) =~= b.map_values(bag));
    assert forall|i: int, j: int| 0 <= i < j < left.len() implies name(#[trigger] left[i]) == name(
        #[trigger] left[j],
    ) || precedes(name(left[i]), name(left[j])) by {
        assert(key(x[i]) == key(x[j]) || precedes(key(x[i]), key(x[j])));
    }
    assert forall|i: int, j: int| 0 <= i < j < right.len() implies name(#[trigger] right[i])
        == name(#[trigger] right[j]) || precedes(name(right[i]), name(right[j])) by {
        assert(key(y[i]) == key(y[j]) || precedes(key(y[i]), key(y[j])));
    }
    assert forall|i: int, j: int| 0 <= i < j < a.len() implies key(#[trigger] a[i]) != key(
        #[trigger] a[j],
    ) by {
        if key(a[i]) == key(a[j]) {
            lemma_utf8_determines(a[i].name, a[j].name);
        }
    }
    lemma_distinct_keys_move(a, x, key);
    assert forall|i: int, j: int| 0 <= i < j < left.len() implies name(#[trigger] left[i]) != name(
        #[trigger] left[j],
    ) by {
        assert(key(x[i]) != key(x[j]));
    }
    law_distinct_keys_have_one_order(left, right, name);
    lemma_tables_alike(x, y);
    assert(x.len() == left.len());
    assert(y.len() == right.len());
}

/// The digest of a state depends on no order and no place: stores with the same tables, each with
/// the same rows, and the same files at the same paths below their roots have one digest, in
/// whatever order tables, rows and files are found. Reading a state twice gives it twice.
pub proof fn law_state_digest_forgets_every_order(
    a: Seq<u8>,
    a_tables: Seq<TableView>,
    a_entries: Seq<TreeEntryView>,
    b: Seq<u8>,
    b_tables: Seq<TableView>,
    b_entries: Seq<TreeEntryView>,
)
    requires
        distinct_names(a_tables),
        distinct_paths(a_entries),
        table_bags(a_tables).to_multiset() == table_bags(b_tables).to_multiset(),
        a_entries.to_multiset() == b_entries.to_multiset(),
        is_digest_of_state(a, a_tables, a_entries),
        is_digest_of_state(b, b_tables, b_entries),
    ensures
        a == b,
{
    let (x, m) = choose|database: Seq<TableView>, tree: Seq<TreeEntryView>|
        #[trigger] is_ordered_database(a_tables, database) && #[trigger] is_ordered_tree(
            a_entries,
            tree,
        ) && a == state_digest(
            sha256_of(database_transcript(database)),
            sha256_of(tree_transcript(tree)),
        );
    let (y, n) = choose|database: Seq<TableView>, tree: Seq<TreeEntryView>|
        #[trigger] is_ordered_database(b_tables, database) && #[trigger] is_ordered_tree(
            b_entries,
            tree,
        ) && b == state_digest(
            sha256_of(database_transcript(database)),
            sha256_of(tree_transcript(tree)),
        );
    lemma_databases_alike(a_tables, b_tables, x, y);
    let key = |entry: TreeEntryView| <TreeEntry as Keyed>::key(entry);
    assert forall|i: int, j: int| 0 <= i < j < a_entries.len() implies key(
        #[trigger] a_entries[i],
    ) != key(#[trigger] a_entries[j]) by {
        if key(a_entries[i]) == key(a_entries[j]) {
            lemma_utf8_determines(a_entries[i].relative_path, a_entries[j].relative_path);
        }
    }
    lemma_distinct_keys_move(a_entries, m, key);
    law_distinct_keys_have_one_order(m, n, key);
}

/// What is hashed of an artifact tree determines it: every path with its size and its digest.
pub proof fn law_tree_transcript_determines_the_tree(a: Seq<TreeEntryView>, b: Seq<TreeEntryView>)
    requires
        a.len() <= u64::MAX,
        b.len() <= u64::MAX,
        forall|i: int|
            0 <= i < a.len() ==> (#[trigger] a[i]).digest.len() == 32 && utf8(
                a[i].relative_path,
            ).len() <= u64::MAX,
        forall|i: int|
            0 <= i < b.len() ==> (#[trigger] b[i]).digest.len() == 32 && utf8(
                b[i].relative_path,
            ).len() <= u64::MAX,
        tree_transcript(a) == tree_transcript(b),
    ensures
        a == b,
{
    let domain = utf8("naome-memory:sqlite:artifact-tree:v1\0"@);
    let left = be64(a.len() as int);
    let right = be64(b.len() as int);
    lemma_regroup(domain, left, entries_transcript(a));
    lemma_regroup(domain, right, entries_transcript(b));
    lemma_split(domain, left + entries_transcript(a), domain, right + entries_transcript(b));
    lemma_be64_length(a.len() as int);
    lemma_be64_length(b.len() as int);
    lemma_split(left, entries_transcript(a), right, entries_transcript(b));
    lemma_be64_determines(a.len() as int, b.len() as int);
    lemma_entries_determine(a, b);
}

proof fn lemma_entries_shift(first: TreeEntryView, rest: Seq<TreeEntryView>)
    ensures
        entries_transcript(seq![first] + rest) == entry_transcript(first) + entries_transcript(rest),
    decreases rest.len(),
{
    let all = seq![first] + rest;
    if rest.len() == 0 {
        assert(all.drop_last() =~= Seq::<TreeEntryView>::empty());
        assert(entries_transcript(all.drop_last()) =~= Seq::<u8>::empty());
        assert(all.last() == first);
        assert(entries_transcript(all) =~= entry_transcript(first) + entries_transcript(rest));
    } else {
        lemma_entries_shift(first, rest.drop_last());
        assert(all.drop_last() =~= seq![first] + rest.drop_last());
        assert(all.last() == rest.last());
        assert(entries_transcript(all) =~= entry_transcript(first) + entries_transcript(rest));
    }
}

proof fn lemma_entries_determine(a: Seq<TreeEntryView>, b: Seq<TreeEntryView>)
    requires
        a.len() == b.len(),
        forall|i: int|
            0 <= i < a.len() ==> (#[trigger] a[i]).digest.len() == 32 && utf8(
                a[i].relative_path,
            ).len() <= u64::MAX,
        forall|i: int|
            0 <= i < b.len() ==> (#[trigger] b[i]).digest.len() == 32 && utf8(
                b[i].relative_path,
            ).len() <= u64::MAX,
        entries_transcript(a) == entries_transcript(b),
    ensures
        a == b,
    decreases a.len(),
{
    if a.len() > 0 {
        let left = a.subrange(1, a.len() as int);
        let right = b.subrange(1, b.len() as int);
        assert(a =~= seq![a[0]] + left);
        assert(b =~= seq![b[0]] + right);
        lemma_entries_shift(a[0], left);
        lemma_entries_shift(b[0], right);
        let left_size = be64(a[0].byte_len as int);
        let right_size = be64(b[0].byte_len as int);
        let left_tail = left_size + (a[0].digest + entries_transcript(left));
        let right_tail = right_size + (b[0].digest + entries_transcript(right));
        assert(entry_transcript(a[0]) + entries_transcript(left) =~= frame(
            utf8(a[0].relative_path),
        ) + left_tail);
        assert(entry_transcript(b[0]) + entries_transcript(right) =~= frame(
            utf8(b[0].relative_path),
        ) + right_tail);
        law_frame_is_self_delimiting(
            utf8(a[0].relative_path),
            left_tail,
            utf8(b[0].relative_path),
            right_tail,
        );
        lemma_utf8_determines(a[0].relative_path, b[0].relative_path);
        lemma_be64_length(a[0].byte_len as int);
        lemma_be64_length(b[0].byte_len as int);
        lemma_split(
            left_size,
            a[0].digest + entries_transcript(left),
            right_size,
            b[0].digest + entries_transcript(right),
        );
        lemma_be64_determines(a[0].byte_len as int, b[0].byte_len as int);
        lemma_split(
            a[0].digest,
            entries_transcript(left),
            b[0].digest,
            entries_transcript(right),
        );
        assert forall|i: int| 0 <= i < left.len() implies (#[trigger] left[i]).digest.len() == 32
            && utf8(left[i].relative_path).len() <= u64::MAX by {
            assert(left[i] == a[i + 1]);
        }
        assert forall|i: int| 0 <= i < right.len() implies (#[trigger] right[i]).digest.len() == 32
            && utf8(right[i].relative_path).len() <= u64::MAX by {
            assert(right[i] == b[i + 1]);
        }
        lemma_entries_determine(left, right);
        assert(a[0] == b[0]);
    }
    assert(a =~= b);
}

} // verus!
