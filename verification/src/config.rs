//! The configuration table of the batch mode: one region per row, with the
//! haplotype groups of each sample.

use crate::error::{VcfError, VcfErrorView};
use crate::genotype::{find_delimiter, scan_to, Delimiter};
use crate::haplotype::{samples_view, SampleGroups, SampleGroupsView};
use crate::header::names_view;
use crate::line::same_chars;
use crate::text::{chars_of, decimal_text, is_digit, number_to_string, parse_i64, parse_u8, read_i64,
    read_u8};
use vstd::prelude::*;
use vstd::slice::slice_subrange;
use vstd::string::StringExecFns;

verus! {

/// One row of the configuration table: a region of a chromosome and the
/// groups of the samples that gave a valid cell.
#[derive(Debug)]
pub struct ConfigEntry {
    pub seqname: String,
    pub start: i64,
    pub end: i64,
    pub samples: Vec<SampleGroups>,
}

/// A row of the table as a mathematical value.
pub struct ConfigEntryView {
    pub seqname: Seq<char>,
    pub start: int,
    pub end: int,
    pub samples: Seq<SampleGroupsView>,
}

impl View for ConfigEntry {
    type V = ConfigEntryView;

    open spec fn view(&self) -> ConfigEntryView {
        ConfigEntryView {
            seqname: self.seqname@,
            start: self.start as int,
            end: self.end as int,
            samples: samples_view(self.samples@),
        }
    }
}

/// The entries of `entries` as mathematical values.
pub open spec fn entries_view(entries: Seq<ConfigEntry>) -> Seq<ConfigEntryView> {
    entries.map_values(|e: ConfigEntry| e@)
}

/// No two samples have the same name, and every group is 0 or 1.
pub open spec fn valid_samples(samples: Seq<SampleGroupsView>) -> bool {
    &&& forall|i: int, j: int|
        0 <= i < j < samples.len() ==> (#[trigger] samples[i]).name != (#[trigger] samples[j]).name
    &&& forall|i: int|
        0 <= i < samples.len() ==> (#[trigger] samples[i]).left <= 1 && samples[i].right <= 1
}

/// The index of the sample called `name`.
pub open spec fn named(samples: Seq<SampleGroupsView>, name: Seq<char>) -> Option<int> {
    if exists|i: int| 0 <= i < samples.len() && (#[trigger] samples[i]).name == name {
        Some(choose|i: int| 0 <= i < samples.len() && (#[trigger] samples[i]).name == name)
    } else {
        None
    }
}

/// `samples` with the groups of `sample` set: in place where a sample of
/// that name is there already, else at the end.
pub open spec fn upsert(samples: Seq<SampleGroupsView>, sample: SampleGroupsView) -> Seq<
    SampleGroupsView,
> {
    match named(samples, sample.name) {
        Some(i) => samples.update(i, sample),
        None => samples.push(sample),
    }
}

/// Setting the groups of a sample keeps the samples valid.
pub proof fn lemma_upsert_valid(samples: Seq<SampleGroupsView>, sample: SampleGroupsView)
    requires
        valid_samples(samples),
        sample.left <= 1,
        sample.right <= 1,
    ensures
        valid_samples(upsert(samples, sample)),
        upsert(samples, sample).len() > 0,
{
    let out = upsert(samples, sample);
    match named(samples, sample.name) {
        Some(at) => {
            assert forall|i: int, j: int| 0 <= i < j < out.len() implies (#[trigger] out[i]).name
                != (#[trigger] out[j]).name by {
                assert(samples[i].name != samples[j].name);
            }
        },
        None => {
            assert forall|i: int, j: int| 0 <= i < j < out.len() implies (#[trigger] out[i]).name
                != (#[trigger] out[j]).name by {
                if j < samples.len() {
                    assert(samples[i].name != samples[j].name);
                } else {
                    assert(samples[i].name != sample.name);
                }
            }
        },
    }
}

/// Sets the groups of `sample` among `samples`.
pub fn insert_sample(samples: &mut Vec<SampleGroups>, sample: SampleGroups)
    requires
        valid_samples(samples_view(old(samples)@)),
    ensures
        samples_view(final(samples)@) == upsert(samples_view(old(samples)@), sample@),
{
    let ghost before = samples_view(samples@);
    let name = chars_of(sample.name.as_str());
    let mut i: usize = 0;
    while i < samples.len()
        invariant
            i <= samples@.len(),
            before == samples_view(samples@),
            before == samples_view(old(samples)@),
            valid_samples(before),
            name@ == sample.name@,
            forall|t: int| 0 <= t < i ==> (#[trigger] before[t]).name != sample@.name,
        decreases samples@.len() - i,
    {
        let other = chars_of(samples[i].name.as_str());
        if same_chars(other.as_slice(), name.as_slice()) {
            assert(before[i as int].name == sample@.name);
            proof {
                let at = named(before, sample@.name)->0;
                assert(before[at].name == sample@.name);
                if at < i {
                    assert(before[at].name != before[i as int].name);
                } else if at > i {
                    assert(before[i as int].name != before[at].name);
                }
                assert(at == i);
            }
            samples.set(i, sample);
            assert(samples_view(samples@) =~= before.update(i as int, sample@));
            return;
        }
        i += 1;
    }
    samples.push(sample);
    assert(samples_view(samples@) =~= before.push(sample@));
}

/// The index of the first character at or after `i` that is no digit.
pub open spec fn digits_end(s: Seq<char>, i: int) -> int
    decreases s.len() - i,
{
    if i < 0 || i >= s.len() || !is_digit(s[i]) {
        i
    } else {
        digits_end(s, i + 1)
    }
}

/// The leading digits end inside the text.
pub proof fn lemma_digits_end(s: Seq<char>, i: int)
    requires
        0 <= i <= s.len(),
    ensures
        i <= digits_end(s, i) <= s.len(),
    decreases s.len() - i,
{
    if i < s.len() && is_digit(s[i]) {
        lemma_digits_end(s, i + 1);
    }
}

/// The group that one side of a cell names: the number that its leading
/// digits write, where that is 0 or 1.
pub open spec fn group_code(part: Seq<char>) -> Option<u8> {
    match parse_u8(part.take(digits_end(part, 0))) {
        Some(v) => if v <= 1 {
            Some(v)
        } else {
            None
        },
        None => None,
    }
}

/// The groups that a sample cell names, written `left|right`: what stands
/// before the first bar, and what stands between it and the next bar or
/// the end.
pub open spec fn cell_groups(cell: Seq<char>) -> Option<(u8, u8)> {
    let bar = scan_to(cell, 0, Delimiter::Bar);
    if bar >= cell.len() {
        None
    } else {
        let next = scan_to(cell, bar + 1, Delimiter::Bar);
        match (group_code(cell.take(bar)), group_code(cell.subrange(bar + 1, next))) {
            (Some(left), Some(right)) => Some((left, right)),
            _ => None,
        }
    }
}

/// Reads the group that one side of a cell names.
fn read_group_code(part: &[char]) -> (out: Option<u8>)
    ensures
        out == group_code(part@),
{
    let mut e: usize = 0;
    while e < part.len() && 0x30 <= part[e] as u32 && part[e] as u32 <= 0x39
        invariant
            e <= part@.len(),
            digits_end(part@, 0) == digits_end(part@, e as int),
        decreases part@.len() - e,
    {
        e += 1;
    }
    match read_u8(slice_subrange(part, 0, e)) {
        Some(v) => if v <= 1 {
            Some(v)
        } else {
            None
        },
        None => None,
    }
}

/// Reads the groups of one sample cell.
pub fn read_cell(cell: &[char]) -> (out: Option<(u8, u8)>)
    ensures
        out == cell_groups(cell@),
{
    let bar = find_delimiter(cell, 0, Delimiter::Bar);
    if bar >= cell.len() {
        return None;
    }
    let next = find_delimiter(cell, bar + 1, Delimiter::Bar);
    let left = read_group_code(slice_subrange(cell, 0, bar));
    let right = read_group_code(slice_subrange(cell, bar + 1, next));
    match (left, right) {
        (Some(l), Some(r)) => Some((l, r)),
        _ => None,
    }
}

/// The samples that the cells of a row give, cell by cell: a valid cell
/// sets the groups of the sample that its column names.
pub open spec fn row_samples(names: Seq<Seq<char>>, cells: Seq<Seq<char>>) -> Seq<SampleGroupsView>
    decreases cells.len(),
{
    if cells.len() == 0 {
        Seq::empty()
    } else {
        let before = row_samples(names, cells.drop_last());
        match cell_groups(cells.last()) {
            Some(groups) => upsert(
                before,
                SampleGroupsView {
                    name: names[cells.len() - 1],
                    left: groups.0,
                    right: groups.1,
                },
            ),
            None => before,
        }
    }
}

/// The number of cells that name no valid pair of groups.
pub open spec fn invalid_cells(cells: Seq<Seq<char>>) -> nat
    decreases cells.len(),
{
    if cells.len() == 0 {
        0
    } else {
        invalid_cells(cells.drop_last()) + if cell_groups(cells.last()) is None {
            1nat
        } else {
            0nat
        }
    }
}

/// The samples of a row are valid, and as many cells at most are invalid
/// as there are.
pub proof fn lemma_row_samples(names: Seq<Seq<char>>, cells: Seq<Seq<char>>)
    ensures
        valid_samples(row_samples(names, cells)),
        invalid_cells(cells) <= cells.len(),
        row_samples(names, cells).len() == 0 <==> invalid_cells(cells) == cells.len(),
    decreases cells.len(),
{
    if cells.len() > 0 {
        lemma_row_samples(names, cells.drop_last());
        match cell_groups(cells.last()) {
            Some(groups) => {
                assert(groups.0 <= 1 && groups.1 <= 1);
                lemma_upsert_valid(
                    row_samples(names, cells.drop_last()),
                    SampleGroupsView {
                        name: names[cells.len() - 1],
                        left: groups.0,
                        right: groups.1,
                    },
                );
            },
            None => {},
        }
    }
}

/// What one row of the table yields, where `number` is its line in the
/// file: a failure where it has not as many fields as the header or where
/// its start or end is no integer; nothing where no cell is valid; else
/// the entry.
pub open spec fn config_row(headers: Seq<Seq<char>>, record: Seq<Seq<char>>, number: nat) -> Result<
    Option<ConfigEntryView>,
    VcfErrorView,
> {
    if record.len() != headers.len() {
        Err(
            VcfErrorView::Parse(
                "Mismatched number of fields in record on line "@ + decimal_text(number),
            ),
        )
    } else {
        match parse_i64(record[1]) {
            None => Err(VcfErrorView::Parse("Invalid start"@)),
            Some(start) => match parse_i64(record[2]) {
                None => Err(VcfErrorView::Parse("Invalid end"@)),
                Some(end) => {
                    let samples = row_samples(headers.skip(7), record.skip(7));
                    if samples.len() == 0 {
                        Ok(None)
                    } else {
                        Ok(
                            Some(
                                ConfigEntryView {
                                    seqname: record[0],
                                    start: start as int,
                                    end: end as int,
                                    samples,
                                },
                            ),
                        )
                    }
                },
            },
        }
    }
}

/// The entries of a configuration table, with the count of its sample
/// cells and of the invalid ones among them.
#[derive(Debug)]
pub struct ConfigTable {
    pub entries: Vec<ConfigEntry>,
    pub total_genotypes: u128,
    pub invalid_genotypes: u128,
    /// The rows, by index, that were dropped for want of a valid cell.
    pub dropped_rows: Vec<usize>,
}

/// A configuration table as a mathematical value.
pub struct ConfigTableView {
    pub entries: Seq<ConfigEntryView>,
    pub total_genotypes: nat,
    pub invalid_genotypes: nat,
    pub dropped_rows: Seq<int>,
}

impl View for ConfigTable {
    type V = ConfigTableView;

    open spec fn view(&self) -> ConfigTableView {
        ConfigTableView {
            entries: entries_view(self.entries@),
            total_genotypes: self.total_genotypes as nat,
            invalid_genotypes: self.invalid_genotypes as nat,
            dropped_rows: self.dropped_rows@.map_values(|i: usize| i as int),
        }
    }
}

/// The table that `records` give under `headers`: the failure of the first
/// row that fails, else the entries of the rows with a valid cell, in
/// order.
pub open spec fn table_of(headers: Seq<Seq<char>>, records: Seq<Seq<Seq<char>>>) -> Result<
    ConfigTableView,
    VcfErrorView,
>
    decreases records.len(),
{
    if records.len() == 0 {
        Ok(
            ConfigTableView {
                entries: Seq::empty(),
                total_genotypes: 0,
                invalid_genotypes: 0,
                dropped_rows: Seq::empty(),
            },
        )
    } else {
        match table_of(headers, records.drop_last()) {
            Err(e) => Err(e),
            Ok(t) => match config_row(headers, records.last(), records.len() + 1) {
                Err(e) => Err(e),
                Ok(row) => Ok(
                    ConfigTableView {
                        entries: match row {
                            Some(entry) => t.entries.push(entry),
                            None => t.entries,
                        },
                        total_genotypes: t.total_genotypes + (headers.len() - 7) as nat,
                        invalid_genotypes: t.invalid_genotypes + invalid_cells(
                            records.last().skip(7),
                        ),
                        dropped_rows: match row {
                            Some(entry) => t.dropped_rows,
                            None => t.dropped_rows.push(records.len() - 1),
                        },
                    },
                ),
            },
        }
    }
}

/// The table of a configuration file with the header fields `headers` and
/// the records `records`: the first seven columns describe the region,
/// the others name the samples, and there must be at least one of those.
pub open spec fn config_table(headers: Seq<Seq<char>>, records: Seq<Seq<Seq<char>>>) -> Result<
    ConfigTableView,
    VcfErrorView,
> {
    if headers.len() <= 7 {
        Err(VcfErrorView::Parse("No sample names found in config file header."@))
    } else {
        table_of(headers, records)
    }
}

/// A failure among the first rows is the failure of the whole table.
pub proof fn lemma_table_failure(
    headers: Seq<Seq<char>>,
    records: Seq<Seq<Seq<char>>>,
    k: int,
)
    requires
        0 <= k <= records.len(),
        table_of(headers, records.take(k)) is Err,
    ensures
        table_of(headers, records) == table_of(headers, records.take(k)),
    decreases records.len(),
{
    if k == records.len() {
        assert(records.take(k) =~= records);
    } else {
        assert(records.drop_last().take(k) =~= records.take(k));
        lemma_table_failure(headers, records.drop_last(), k);
    }
}

/// Every entry of a table has at least one sample, and valid samples; the
/// table counts every sample cell, and no more invalid ones than cells.
pub proof fn lemma_table_entries(headers: Seq<Seq<char>>, records: Seq<Seq<Seq<char>>>)
    requires
        headers.len() >= 7,
    ensures
        table_of(headers, records) matches Ok(t) ==> {
            &&& t.invalid_genotypes <= t.total_genotypes
            &&& t.total_genotypes == records.len() * (headers.len() - 7)
            &&& forall|k: int|
                0 <= k < t.entries.len() ==> (#[trigger] t.entries[k]).samples.len() > 0
                    && valid_samples(t.entries[k].samples)
        },
    decreases records.len(),
{
    if records.len() > 0 {
        lemma_table_entries(headers, records.drop_last());
        if table_of(headers, records) is Ok {
            let t = table_of(headers, records)->Ok_0;
            let before = table_of(headers, records.drop_last())->Ok_0;
            let record = records.last();
            let row = config_row(headers, record, records.len() + 1)->Ok_0;
            lemma_row_samples(headers.skip(7), record.skip(7));
            assert(record.len() == headers.len());
            assert(record.skip(7).len() == headers.len() - 7);
            assert((records.len() - 1) * (headers.len() - 7) + (headers.len() - 7)
                == records.len() * (headers.len() - 7)) by (nonlinear_arith);
            assert forall|k: int| 0 <= k < t.entries.len() implies (#[trigger] t.entries[k]).samples.len()
                > 0 && valid_samples(t.entries[k].samples) by {
                if k < before.entries.len() {
                    assert(t.entries[k] == before.entries[k]);
                } else {
                    assert(t.entries[k] == row->0);
                }
            }
        }
    } else {
        assert(0 * (headers.len() - 7) == 0) by (nonlinear_arith);
    }
}

/// The fields of each record as sequences of characters.
pub open spec fn rows_view(records: Seq<Vec<String>>) -> Seq<Seq<Seq<char>>> {
    records.map_values(|r: Vec<String>| names_view(r@))
}

/// The outcome of reading a table as a mathematical value.
pub open spec fn table_view(out: Result<ConfigTable, VcfError>) -> Result<
    ConfigTableView,
    VcfErrorView,
> {
    match out {
        Ok(t) => Ok(t@),
        Err(e) => Err(e@),
    }
}

/// The samples that the cells of `record` give, and the number of invalid
/// cells.
fn read_row_samples(headers: &Vec<String>, record: &Vec<String>) -> (out: (Vec<SampleGroups>, usize))
    requires
        headers@.len() == record@.len(),
        headers@.len() >= 7,
    ensures
        samples_view(out.0@) == row_samples(
            names_view(headers@).skip(7),
            names_view(record@).skip(7),
        ),
        out.1 == invalid_cells(names_view(record@).skip(7)),
{
    let ghost names = names_view(headers@).skip(7);
    let ghost cells = names_view(record@).skip(7);
    let mut samples: Vec<SampleGroups> = Vec::new();
    let mut invalid: usize = 0;
    let mut i: usize = 7;
    assert(samples_view(samples@) =~= Seq::<SampleGroupsView>::empty());
    assert(cells.take(0) =~= Seq::<Seq<char>>::empty());
    while i < record.len()
        invariant
            7 <= i <= record@.len(),
            headers@.len() == record@.len(),
            names == names_view(headers@).skip(7),
            cells == names_view(record@).skip(7),
            samples_view(samples@) == row_samples(names, cells.take(i - 7)),
            invalid == invalid_cells(cells.take(i - 7)),
            invalid <= i - 7,
        decreases record@.len() - i,
    {
        proof {
            assert(cells.take(i - 7 + 1).drop_last() =~= cells.take(i - 7));
            assert(cells.take(i - 7 + 1).last() == record@[i as int]@);
            assert(names[i - 7] == headers@[i as int]@);
            lemma_row_samples(names, cells.take(i - 7));
        }
        let cell = chars_of(record[i].as_str());
        match read_cell(cell.as_slice()) {
            Some((left, right)) => {
                let sample = SampleGroups { name: headers[i].clone(), left, right };
                insert_sample(&mut samples, sample);
            },
            None => {
                invalid += 1;
            },
        }
        i += 1;
    }
    assert(cells.take(i - 7) =~= cells);
    (samples, invalid)
}

/// One row read: its entry, if a cell is valid, and the number of invalid
/// cells.
pub struct ConfigRow {
    pub entry: Option<ConfigEntry>,
    pub invalid: usize,
}

/// Reads one row of the table, where `number` is its line in the file.
pub fn read_config_row(headers: &Vec<String>, record: &Vec<String>, number: u128) -> (out: Result<
    ConfigRow,
    VcfError,
>)
    requires
        headers@.len() > 7,
    ensures
        match out {
            Ok(row) => {
                &&& config_row(names_view(headers@), names_view(record@), number as nat) == Ok::<
                    _,
                    VcfErrorView,
                >(
                    match row.entry {
                        Some(entry) => Some(entry@),
                        None => None,
                    },
                )
                &&& row.invalid == invalid_cells(names_view(record@).skip(7))
            },
            Err(e) => config_row(names_view(headers@), names_view(record@), number as nat) == Err::<
                Option<ConfigEntryView>,
                _,
            >(e@),
        },
{
    if record.len() != headers.len() {
        let text = "Mismatched number of fields in record on line ".to_owned().concat(
            number_to_string(number).as_str(),
        );
        return Err(VcfError::Parse(text));
    }
    let first = chars_of(record[1].as_str());
    let start = match read_i64(first.as_slice()) {
        Some(start) => start,
        None => {
            return Err(VcfError::parse("Invalid start"));
        },
    };
    let second = chars_of(record[2].as_str());
    let end = match read_i64(second.as_slice()) {
        Some(end) => end,
        None => {
            return Err(VcfError::parse("Invalid end"));
        },
    };
    let (samples, invalid) = read_row_samples(headers, record);
    if samples.len() == 0 {
        return Ok(ConfigRow { entry: None, invalid });
    }
    let entry = ConfigEntry { seqname: record[0].clone(), start, end, samples };
    Ok(ConfigRow { entry: Some(entry), invalid })
}

/// Reads the configuration table from the fields of its header and of its
/// records.
pub fn parse_config_table(headers: &Vec<String>, records: &Vec<Vec<String>>) -> (out: Result<
    ConfigTable,
    VcfError,
>)
    ensures
        table_view(out) == config_table(names_view(headers@), rows_view(records@)),
        out matches Ok(t) ==> forall|k: int|
            0 <= k < t.entries@.len() ==> (#[trigger] t.entries@[k])@.samples.len() > 0
                && valid_samples(t.entries@[k]@.samples),
{
    if headers.len() <= 7 {
        return Err(VcfError::parse("No sample names found in config file header."));
    }
    let ghost names = names_view(headers@);
    let ghost rows = rows_view(records@);
    let mut entries: Vec<ConfigEntry> = Vec::new();
    let mut dropped: Vec<usize> = Vec::new();
    let mut total: u128 = 0;
    let mut invalid: u128 = 0;
    let mut k: usize = 0;
    let cells: usize = headers.len() - 7;
    assert(entries_view(entries@) =~= Seq::<ConfigEntryView>::empty());
    assert(dropped@.map_values(|i: usize| i as int) =~= Seq::<int>::empty());
    assert(rows.take(0) =~= Seq::<Seq<Seq<char>>>::empty());
    while k < records.len()
        invariant
            k <= records@.len(),
            names == names_view(headers@),
            rows == rows_view(records@),
            headers@.len() > 7,
            cells == headers@.len() - 7,
            total <= k * usize::MAX,
            invalid <= k * usize::MAX,
            table_of(names, rows.take(k as int)) == Ok::<_, VcfErrorView>(
                ConfigTableView {
                    entries: entries_view(entries@),
                    total_genotypes: total as nat,
                    invalid_genotypes: invalid as nat,
                    dropped_rows: dropped@.map_values(|i: usize| i as int),
                },
            ),
        decreases records@.len() - k,
    {
        proof {
            assert(rows.take(k + 1).drop_last() =~= rows.take(k as int));
            assert(rows.take(k + 1).last() == names_view(records@[k as int]@));
            lemma_row_samples(names.skip(7), names_view(records@[k as int]@).skip(7));
            assert(k * usize::MAX + usize::MAX == (k + 1) * usize::MAX) by (nonlinear_arith);
            assert(k * usize::MAX <= usize::MAX * usize::MAX) by (nonlinear_arith)
                requires
                    k <= usize::MAX,
            ;
            assert(usize::MAX * usize::MAX + usize::MAX <= u128::MAX) by (nonlinear_arith)
                requires
                    usize::MAX <= 0xffff_ffff_ffff_ffff,
            ;
        }
        let ghost old_entries = entries_view(entries@);
        let ghost old_dropped = dropped@.map_values(|i: usize| i as int);
        match read_config_row(headers, &records[k], k as u128 + 2) {
            Err(e) => {
                proof {
                    lemma_table_failure(names, rows, k + 1);
                }
                return Err(e);
            },
            Ok(row) => {
                assert(records@[k as int]@.len() == headers@.len());
                total = total + cells as u128;
                invalid = invalid + row.invalid as u128;
                match row.entry {
                    Some(entry) => {
                        entries.push(entry);
                        assert(entries_view(entries@) =~= old_entries.push(entry@));
                    },
                    None => {
                        dropped.push(k);
                        assert(dropped@.map_values(|i: usize| i as int) =~= old_dropped.push(
                            k as int,
                        ));
                    },
                }
            },
        }
        k += 1;
    }
    proof {
        assert(rows.take(k as int) =~= rows);
        lemma_table_entries(names, rows);
        assert forall|t: int| 0 <= t < entries@.len() implies (#[trigger] entries@[t])@.samples.len()
            > 0 && valid_samples(entries@[t]@.samples) by {
            let table = table_of(names, rows)->Ok_0;
            assert(table.entries == entries_view(entries@));
            assert(table.entries[t] == entries@[t]@);
        }
    }
    Ok(
        ConfigTable {
            entries,
            total_genotypes: total,
            invalid_genotypes: invalid,
            dropped_rows: dropped,
        },
    )
}

} // verus!
