//! The schema of a weight table, resolved from the table's header line.
//!
//! Which header means chromosome, position, tested allele and so on is
//! configured; the header line of the file says where each of them stands.
//! A header that is expected and absent is an error; a header that is not
//! expected is typed as free text. Names are handled as bytes.

use vstd::prelude::*;
use vstd::slice::slice_to_vec;

verus! {

/// const for default column name
pub const ID: &'static str = "ID";

pub const CHR: &'static str = "CHR";

pub const POS: &'static str = "POS";

pub const A1: &'static str = "A1";

/// optional default column name
pub const FREQ: &'static str = "FREQ";

pub const PVALUE: &'static str = "P";

pub const RANK: &'static str = "RANK";

/// The type of the cells of a column.
#[derive(Debug, Clone, Copy, PartialEq, Eq, Structural)]
pub enum ColType {
    /// Free text.
    Utf8,
    /// A 32-bit integer.
    Int32,
    /// A 32-bit floating-point number.
    Float32,
}

/// One column of a schema: its name and the type of its cells.
#[derive(Debug, Clone, PartialEq, Eq)]
pub struct Field {
    pub name: Vec<u8>,
    pub dtype: ColType,
}

/// One expected column: the header that it has in the file, the name that
/// it is given, and the type of its cells.
#[derive(Debug, Clone, PartialEq, Eq)]
pub struct SchemaEntry {
    pub header: Vec<u8>,
    pub name: Vec<u8>,
    pub dtype: ColType,
}

/// An expected column, as contracts see it.
pub struct Entry {
    pub header: Seq<u8>,
    pub name: Seq<u8>,
    pub dtype: ColType,
}

impl View for SchemaEntry {
    type V = Entry;

    open spec fn view(&self) -> Entry {
        Entry { header: self.header@, name: self.name@, dtype: self.dtype }
    }
}

/// Why a header line gives no schema.
#[derive(Debug, Clone, PartialEq, Eq)]
pub enum SchemaError {
    /// These expected headers are not in the header line.
    MissingColumns(Vec<Vec<u8>>),
}

/// The texts of a list of names.
pub open spec fn spec_names(names: Seq<Vec<u8>>) -> Seq<Seq<u8>> {
    names.map_values(|v: Vec<u8>| v@)
}

/// The expected columns of a table, as contracts see them.
pub open spec fn spec_entries(table: Seq<SchemaEntry>) -> Seq<Entry> {
    table.map_values(|e: SchemaEntry| e@)
}

/// The first `n` bytes of a line without line feeds and carriage returns.
pub open spec fn spec_strip(line: Seq<u8>, n: int) -> Seq<u8>
    decreases n,
{
    if n <= 0 {
        Seq::empty()
    } else if line[n - 1] == 10 || line[n - 1] == 13 {
        spec_strip(line, n - 1)
    } else {
        spec_strip(line, n - 1).push(line[n - 1])
    }
}

/// The fields of the first `n` bytes of a line, split at each separator:
/// one field more than there are separators, so that an empty line has one
/// empty field.
pub open spec fn spec_split(line: Seq<u8>, sep: u8, n: int) -> Seq<Seq<u8>>
    decreases n,
{
    if n <= 0 {
        seq![Seq::<u8>::empty()]
    } else {
        let prev = spec_split(line, sep, n - 1);
        if line[n - 1] == sep {
            prev.push(Seq::<u8>::empty())
        } else {
            prev.update(prev.len() - 1, prev.last().push(line[n - 1]))
        }
    }
}

/// A split has at least one field.
pub proof fn lemma_split_len(line: Seq<u8>, sep: u8, n: int)
    ensures
        spec_split(line, sep, n).len() >= 1,
    decreases n,
{
    if n > 0 {
        lemma_split_len(line, sep, n - 1);
    }
}

/// Whether two byte strings are equal.
pub fn bytes_eq(a: &[u8], b: &[u8]) -> (r: bool)
    ensures
        r == (a@ == b@),
{
    if a.len() != b.len() {
        return false;
    }
    let mut k: usize = 0;
    while k < a.len()
        invariant
            k <= a.len(),
            a@.len() == b@.len(),
            forall|h: int| 0 <= h < k ==> a@[h] == b@[h],
        decreases a.len() - k,
    {
        if a[k] != b[k] {
            return false;
        }
        k += 1;
    }
    assert(a@ =~= b@);
    true
}

/// A line without its line feeds and carriage returns.
pub fn strip_line_ends(line: &[u8]) -> (r: Vec<u8>)
    ensures
        r@ == spec_strip(line@, line@.len() as int),
{
    let mut out: Vec<u8> = Vec::new();
    let mut k: usize = 0;
    while k < line.len()
        invariant
            k <= line.len(),
            out@ == spec_strip(line@, k as int),
        decreases line.len() - k,
    {
        let b: u8 = line[k];
        if b != 10 && b != 13 {
            out.push(b);
        }
        k += 1;
    }
    out
}

/// The fields of a line, split at each separator.
pub fn split_fields(line: &[u8], sep: u8) -> (r: Vec<Vec<u8>>)
    ensures
        spec_names(r@) == spec_split(line@, sep, line@.len() as int),
{
    let mut fields: Vec<Vec<u8>> = Vec::new();
    let mut current: Vec<u8> = Vec::new();
    let mut k: usize = 0;
    proof {
        assert(spec_names(fields@).push(current@) =~= spec_split(line@, sep, 0));
    }
    while k < line.len()
        invariant
            k <= line.len(),
            spec_names(fields@).push(current@) == spec_split(line@, sep, k as int),
        decreases line.len() - k,
    {
        let b: u8 = line[k];
        let ghost done = spec_names(fields@);
        let ghost open = current@;
        if b == sep {
            fields.push(current);
            current = Vec::new();
            proof {
                assert(spec_names(fields@) =~= done.push(open));
                assert(spec_names(fields@).push(current@) =~= spec_split(
                    line@,
                    sep,
                    k as int + 1,
                ));
            }
        } else {
            current.push(b);
            proof {
                let prev = spec_split(line@, sep, k as int);
                assert(prev.len() - 1 == done.len());
                assert(prev.last() == open);
                assert(done.push(current@) =~= prev.update(prev.len() - 1, open.push(b)));
            }
        }
        k += 1;
    }
    let ghost done = spec_names(fields@);
    let ghost open = current@;
    fields.push(current);
    assert(spec_names(fields@) =~= done.push(open));
    fields
}

/// The place of the first of the entries `table[0..n]` with the given
/// header, or `n` where none has it.
pub open spec fn spec_lookup(table: Seq<Entry>, header: Seq<u8>, n: int) -> int
    decreases n,
{
    if n <= 0 {
        0
    } else {
        let p = spec_lookup(table, header, n - 1);
        if p < n - 1 {
            p
        } else if table[n - 1].header == header {
            n - 1
        } else {
            n
        }
    }
}

/// Once a header is found among the first `n` entries, more entries do
/// not change where.
pub proof fn lemma_lookup_stays(table: Seq<Entry>, header: Seq<u8>, n: int, m: int)
    requires
        0 <= n <= m,
        spec_lookup(table, header, n) < n,
    ensures
        spec_lookup(table, header, m) == spec_lookup(table, header, n),
    decreases m - n,
{
    if n < m {
        lemma_lookup_stays(table, header, n, m - 1);
    }
}

/// Finds the first entry of a table with the given header.
pub fn lookup(table: &Vec<SchemaEntry>, header: &[u8]) -> (r: Option<usize>)
    ensures
        r is Some <==> spec_lookup(spec_entries(table@), header@, table@.len() as int)
            < table@.len(),
        r matches Some(t) ==> t == spec_lookup(
            spec_entries(table@),
            header@,
            table@.len() as int,
        ),
{
    let mut t: usize = 0;
    while t < table.len()
        invariant
            t <= table.len(),
            spec_lookup(spec_entries(table@), header@, t as int) == t,
        decreases table.len() - t,
    {
        if bytes_eq(table[t].header.as_slice(), header) {
            proof {
                assert(spec_entries(table@)[t as int].header == header@);
                lemma_lookup_stays(
                    spec_entries(table@),
                    header@,
                    t as int + 1,
                    table@.len() as int,
                );
            }
            return Some(t);
        }
        assert(spec_entries(table@)[t as int].header != header@);
        t += 1;
    }
    None
}

/// What is known of a weight table beyond its rows.
#[derive(Debug)]
pub struct BetaMeta {}

/// The bytes of a text.
pub open spec fn spec_text(s: Seq<char>) -> Seq<u8> {
    vstd::utf8::encode_utf8(s)
}

/// The bytes of a name.
pub fn name_bytes(name: &str) -> (r: Vec<u8>)
    ensures
        r@ == spec_text(name@),
{
    slice_to_vec(name.as_bytes())
}

/// A table with one more expected column: the entry takes the place of
/// the entry with the same header, or the last place where no entry has
/// that header.
pub open spec fn spec_insert(table: Seq<Entry>, e: Entry) -> Seq<Entry> {
    let t = spec_lookup(table, e.header, table.len() as int);
    if t < table.len() {
        table.update(t, e)
    } else {
        table.push(e)
    }
}

/// Adds an expected column to a table.
pub fn insert(table: &mut Vec<SchemaEntry>, e: SchemaEntry)
    ensures
        spec_entries(final(table)@) == spec_insert(spec_entries(old(table)@), e@),
{
    let ghost before = spec_entries(table@);
    match lookup(table, e.header.as_slice()) {
        Some(t) => {
            table.set(t, e);
            assert(spec_entries(table@) =~= before.update(t as int, e@));
        },
        None => {
            table.push(e);
            assert(spec_entries(table@) =~= before.push(e@));
        },
    }
}

/// A table with the score columns `scores[0..n]` added: each is expected
/// under its own name and holds numbers.
pub open spec fn spec_score_entries(table: Seq<Entry>, scores: Seq<String>, n: int) -> Seq<Entry>
    decreases n,
{
    if n <= 0 {
        table
    } else {
        spec_insert(
            spec_score_entries(table, scores, n - 1),
            Entry {
                header: spec_text(scores[n - 1]@),
                name: spec_text(scores[n - 1]@),
                dtype: ColType::Float32,
            },
        )
    }
}

/// Which columns of a weight table are read, and under which headers.
#[derive(Debug)]
pub struct BetaArg<'a> {
    // col
    pub chrom: &'a str,
    pub pos: &'a str,
    pub a1: &'a str,
    pub freq: &'a str,
    pub snp_id: &'a str,
    pub pvalue: &'a str,
    // misc
    pub score_names: &'a Vec<String>,
    pub weight_path: &'a str,
    // flag
    pub need_freq: bool,
    pub need_id: bool,
    pub need_pvalue: bool,
}

/// Whether no field before field `k` is the same as field `k`.
pub open spec fn spec_first_use(fields: Seq<Seq<u8>>, k: int) -> bool {
    forall|h: int| 0 <= h < k ==> #[trigger] fields[h] != fields[k]
}

/// The name and the type of the column of header field `k`: those of the
/// expected column with that header, where there is one and no earlier
/// field has claimed it, and else the field itself as free text.
pub open spec fn spec_field(table: Seq<Entry>, fields: Seq<Seq<u8>>, k: int) -> (Seq<u8>, ColType) {
    let t = spec_lookup(table, fields[k], table.len() as int);
    if t < table.len() && spec_first_use(fields, k) {
        (table[t].name, table[t].dtype)
    } else {
        (fields[k], ColType::Utf8)
    }
}

/// Whether one of the fields `fields[0..n]` is the given header.
pub open spec fn spec_in_header(fields: Seq<Seq<u8>>, header: Seq<u8>, n: int) -> bool
    decreases n,
{
    n > 0 && (spec_in_header(fields, header, n - 1) || fields[n - 1] == header)
}

/// The headers of the entries `table[0..n]` that are not among the
/// fields, in the order of the table.
pub open spec fn spec_missing(table: Seq<Entry>, fields: Seq<Seq<u8>>, n: int) -> Seq<Seq<u8>>
    decreases n,
{
    if n <= 0 {
        Seq::empty()
    } else {
        let prev = spec_missing(table, fields, n - 1);
        if spec_in_header(fields, table[n - 1].header, fields.len() as int) {
            prev
        } else {
            prev.push(table[n - 1].header)
        }
    }
}

/// The fields of a header line: the line without its line ends, split at
/// each tab.
pub open spec fn spec_header_fields(first_line: Seq<u8>) -> Seq<Seq<u8>> {
    let line = spec_strip(first_line, first_line.len() as int);
    spec_split(line, 9, line.len() as int)
}

/// The names and types of a schema.
pub open spec fn spec_fields(schema: Seq<Field>) -> Seq<(Seq<u8>, ColType)> {
    schema.map_values(|f: Field| (f.name@, f.dtype))
}

/// The headers of a table.
pub open spec fn spec_headers(table: Seq<Entry>) -> Seq<Seq<u8>> {
    table.map_values(|e: Entry| e.header)
}

/// Whether field `k` is the first field with its text.
fn is_first_use(fields: &Vec<Vec<u8>>, k: usize) -> (r: bool)
    requires
        k < fields@.len(),
    ensures
        r == spec_first_use(spec_names(fields@), k as int),
{
    let mut h: usize = 0;
    while h < k
        invariant
            h <= k,
            k < fields@.len(),
            forall|g: int| 0 <= g < h ==> #[trigger] spec_names(fields@)[g] != spec_names(fields@)[k as int],
        decreases k - h,
    {
        if bytes_eq(fields[h].as_slice(), fields[k].as_slice()) {
            assert(spec_names(fields@)[h as int] == spec_names(fields@)[k as int]);
            return false;
        }
        assert(spec_names(fields@)[h as int] != spec_names(fields@)[k as int]);
        h += 1;
    }
    true
}

/// Whether a header is among the fields.
fn in_header(fields: &Vec<Vec<u8>>, header: &[u8]) -> (r: bool)
    ensures
        r == spec_in_header(spec_names(fields@), header@, fields@.len() as int),
{
    let mut n: usize = 0;
    while n < fields.len()
        invariant
            n <= fields.len(),
            !spec_in_header(spec_names(fields@), header@, n as int),
        decreases fields.len() - n,
    {
        if bytes_eq(fields[n].as_slice(), header) {
            proof {
                assert(spec_names(fields@)[n as int] == header@);
                lemma_in_header_stays(
                    spec_names(fields@),
                    header@,
                    n as int + 1,
                    fields@.len() as int,
                );
            }
            return true;
        }
        assert(spec_names(fields@)[n as int] != header@);
        n += 1;
    }
    false
}

/// A header that is among the first `n` fields is among more.
pub proof fn lemma_in_header_stays(fields: Seq<Seq<u8>>, header: Seq<u8>, n: int, m: int)
    requires
        0 <= n <= m,
        spec_in_header(fields, header, n),
    ensures
        spec_in_header(fields, header, m),
    decreases m - n,
{
    if n < m {
        lemma_in_header_stays(fields, header, n, m - 1);
    }
}

impl<'a> BetaArg<'a> {
    /// The expected columns: chromosome, position and tested allele, each
    /// score column, and the frequency, the identifier and the p-value
    /// where they are needed. A header that is expected twice keeps its
    /// place and takes the later name and type.
    pub open spec fn spec_schema_table(&self) -> Seq<Entry> {
        let t0 = spec_insert(
            Seq::empty(),
            Entry { header: spec_text(self.chrom@), name: spec_text(CHR@), dtype: ColType::Utf8 },
        );
        let t1 = spec_insert(
            t0,
            Entry { header: spec_text(self.pos@), name: spec_text(POS@), dtype: ColType::Int32 },
        );
        let t2 = spec_insert(
            t1,
            Entry { header: spec_text(self.a1@), name: spec_text(A1@), dtype: ColType::Utf8 },
        );
        let t3 = spec_score_entries(t2, self.score_names@, self.score_names@.len() as int);
        let t4 = if self.need_freq {
            spec_insert(
                t3,
                Entry {
                    header: spec_text(self.freq@),
                    name: spec_text(FREQ@),
                    dtype: ColType::Float32,
                },
            )
        } else {
            t3
        };
        let t5 = if self.need_id {
            spec_insert(
                t4,
                Entry {
                    header: spec_text(self.snp_id@),
                    name: spec_text(ID@),
                    dtype: ColType::Utf8,
                },
            )
        } else {
            t4
        };
        if self.need_pvalue {
            spec_insert(
                t5,
                Entry {
                    header: spec_text(self.pvalue@),
                    name: spec_text(PVALUE@),
                    dtype: ColType::Float32,
                },
            )
        } else {
            t5
        }
    }

    /// The expected columns of the weight table.
    pub fn get_schema_table(&self) -> (table: Vec<SchemaEntry>)
        ensures
            spec_entries(table@) == self.spec_schema_table(),
    {
        let mut schema_table: Vec<SchemaEntry> = Vec::new();
        assert(spec_entries(schema_table@) =~= Seq::<Entry>::empty());
        insert(
            &mut schema_table,
            SchemaEntry {
                header: name_bytes(self.chrom),
                name: name_bytes(CHR),
                dtype: ColType::Utf8,
            },
        );
        insert(
            &mut schema_table,
            SchemaEntry {
                header: name_bytes(self.pos),
                name: name_bytes(POS),
                dtype: ColType::Int32,
            },
        );
        insert(
            &mut schema_table,
            SchemaEntry { header: name_bytes(self.a1), name: name_bytes(A1), dtype: ColType::Utf8 },
        );
        let ghost base = spec_entries(schema_table@);
        let mut n: usize = 0;
        while n < self.score_names.len()
            invariant
                n <= self.score_names@.len(),
                spec_entries(schema_table@) == spec_score_entries(
                    base,
                    self.score_names@,
                    n as int,
                ),
            decreases self.score_names.len() - n,
        {
            let i: &str = self.score_names[n].as_str();
            insert(
                &mut schema_table,
                SchemaEntry { header: name_bytes(i), name: name_bytes(i), dtype: ColType::Float32 },
            );
            n += 1;
        }
        if self.need_freq {
            insert(
                &mut schema_table,
                SchemaEntry {
                    header: name_bytes(self.freq),
                    name: name_bytes(FREQ),
                    dtype: ColType::Float32,
                },
            );
        }
        if self.need_id {
            insert(
                &mut schema_table,
                SchemaEntry {
                    header: name_bytes(self.snp_id),
                    name: name_bytes(ID),
                    dtype: ColType::Utf8,
                },
            );
        }
        if self.need_pvalue {
            insert(
                &mut schema_table,
                SchemaEntry {
                    header: name_bytes(self.pvalue),
                    name: name_bytes(PVALUE),
                    dtype: ColType::Float32,
                },
            );
        }
        schema_table
    }

    /// Resolves the schema of the weight table from its header line, and
    /// lists the headers of the expected columns.
    ///
    /// Each field of the header line gives one column, in the order of the
    /// line. Where an expected column is not among the fields, the result
    /// is the error that lists every such column.
    pub fn get_beta_schema(&self, first_line: &[u8]) -> (r: Result<
        (Vec<Field>, Vec<Vec<u8>>),
        SchemaError,
    >)
        ensures
            ({
                let table = self.spec_schema_table();
                let fields = spec_header_fields(first_line@);
                let missing = spec_missing(table, fields, table.len() as int);
                if missing.len() > 0 {
                    r matches Err(SchemaError::MissingColumns(m)) && spec_names(m@) == missing
                } else {
                    r matches Ok((schema, cols)) && {
                        &&& schema@.len() == fields.len()
                        &&& forall|k: int|
                            0 <= k < fields.len() ==> #[trigger] spec_fields(schema@)[k]
                                == spec_field(table, fields, k)
                        &&& spec_names(cols@) == spec_headers(table)
                    }
                }
            }),
    {
        // read first line and remove new line
        let line: Vec<u8> = strip_line_ends(first_line);
        let fields: Vec<Vec<u8>> = split_fields(line.as_slice(), 9);
        // get required col
        let schema_table: Vec<SchemaEntry> = self.get_schema_table();
        let ghost table = spec_entries(schema_table@);
        let ghost names = spec_names(fields@);
        let mut cols: Vec<Vec<u8>> = Vec::new();
        let mut t: usize = 0;
        while t < schema_table.len()
            invariant
                t <= schema_table.len(),
                table == spec_entries(schema_table@),
                spec_names(cols@) == spec_headers(table).take(t as int),
            decreases schema_table.len() - t,
        {
            let ghost before = spec_names(cols@);
            cols.push(slice_to_vec(schema_table[t].header.as_slice()));
            assert(spec_names(cols@) =~= before.push(table[t as int].header));
            assert(spec_names(cols@) =~= spec_headers(table).take(t as int + 1));
            t += 1;
        }
        assert(spec_headers(table).take(t as int) =~= spec_headers(table));
        // generate schema
        let mut field_vec: Vec<Field> = Vec::new();
        let mut k: usize = 0;
        while k < fields.len()
            invariant
                k <= fields.len(),
                table == spec_entries(schema_table@),
                names == spec_names(fields@),
                field_vec@.len() == k,
                forall|h: int|
                    0 <= h < k ==> #[trigger] spec_fields(field_vec@)[h] == spec_field(
                        table,
                        names,
                        h,
                    ),
            decreases fields.len() - k,
        {
            let first: bool = is_first_use(&fields, k);
            let found: Option<usize> = lookup(&schema_table, fields[k].as_slice());
            assert(names[k as int] == fields@[k as int]@);
            let field: Field = match found {
                Some(e) => {
                    if first {
                        Field {
                            name: slice_to_vec(schema_table[e].name.as_slice()),
                            dtype: schema_table[e].dtype,
                        }
                    } else {
                        Field { name: slice_to_vec(fields[k].as_slice()), dtype: ColType::Utf8 }
                    }
                },
                None => Field { name: slice_to_vec(fields[k].as_slice()), dtype: ColType::Utf8 },
            };
            assert((field.name@, field.dtype) == spec_field(table, names, k as int));
            let ghost before = spec_fields(field_vec@);
            field_vec.push(field);
            assert(spec_fields(field_vec@) =~= before.push(spec_field(table, names, k as int)));
            k += 1;
        }
        // check if there is some column not found
        let mut missing: Vec<Vec<u8>> = Vec::new();
        let mut t: usize = 0;
        while t < schema_table.len()
            invariant
                t <= schema_table.len(),
                table == spec_entries(schema_table@),
                names == spec_names(fields@),
                spec_names(missing@) == spec_missing(table, names, t as int),
            decreases schema_table.len() - t,
        {
            if !in_header(&fields, schema_table[t].header.as_slice()) {
                let ghost before = spec_names(missing@);
                missing.push(slice_to_vec(schema_table[t].header.as_slice()));
                assert(spec_names(missing@) =~= before.push(table[t as int].header));
            }
            t += 1;
        }
        if missing.len() > 0 {
            return Err(SchemaError::MissingColumns(missing));
        }
        Ok((field_vec, cols))
    }
}

} // verus!
