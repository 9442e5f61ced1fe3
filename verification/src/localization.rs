//! Localization tables: from the records of a CSV file to the JSON text that
//! a `LocalizationTable` instance holds.
//!
//! The first record of a table names its columns. Four of them are fixed:
//! `key`, `context`, `example` and `source`. Every other column holds the
//! translations into one locale, and is named after it.

use vstd::prelude::*;
use vstd::string::StringExecFns;
use crate::text::str_equal;

verus! {

/// `csv::Error`, which the CSV reader gives for a table it cannot read.
#[verifier::external_type_specification]
#[verifier::external_body]
pub struct ExCsvError(csv::Error);

/// The records that the CSV reader finds in `contents`, each with its fields
/// in order, the record of the column names first; nothing where the reader
/// gives an error.
pub uninterp spec fn csv_records(contents: Seq<u8>) -> Option<Seq<Seq<Seq<char>>>>;

/// What `serde_json` writes for a string: the text between quotes, with its
/// escapes.
pub uninterp spec fn json_string_literal(text: Seq<char>) -> Seq<char>;

/// Reads `contents` with `csv::Reader::records`, on a reader that hands out
/// the first record like the others and takes no record of another length
/// than the first. The result is all records read, or the reader's first
/// error.
#[verifier::external_body]
fn read_csv_records(contents: &[u8]) -> (read: Result<Vec<Vec<String>>, csv::Error>)
    ensures
        csv_records(contents@) == match read {
            Ok(rows) => Some(rows.deep_view()),
            Err(_) => None,
        },
{
    let mut reader = csv::ReaderBuilder::new().has_headers(false).from_reader(contents);
    let mut rows: Vec<Vec<String>> = Vec::new();
    for record in reader.records() {
        rows.push(record?.iter().map(|field| field.to_owned()).collect());
    }
    Ok(rows)
}

/// Writes `text` as a JSON string with `serde_json::to_string`, which does
/// not fail on a string.
#[verifier::external_body]
fn json_string(text: &str) -> (out: String)
    ensures
        out@ == json_string_literal(text@),
{
    serde_json::to_string(text).unwrap_or_default()
}

/// A row of a localization table, as the table file holds it.
#[derive(Debug, PartialEq, Eq)]
pub struct LocalizationEntryCsv {
    pub key: String,
    pub context: String,
    pub example: String,
    pub source: String,
    pub values: Vec<(String, String)>,
}

/// A row of a localization table, as the JSON text holds it.
#[derive(Debug, PartialEq, Eq)]
pub struct LocalizationEntryJson {
    pub key: String,
    pub context: String,
    pub example: String,
    pub source: String,
    pub values: Vec<(String, String)>,
}

/// What a row of a localization table stands for: its four fixed fields, and
/// its translations by locale, in the order of the columns.
pub struct LocalizationEntryView {
    pub key: Seq<char>,
    pub context: Seq<char>,
    pub example: Seq<char>,
    pub source: Seq<char>,
    pub values: Seq<(Seq<char>, Seq<char>)>,
}

impl View for LocalizationEntryCsv {
    type V = LocalizationEntryView;

    open spec fn view(&self) -> LocalizationEntryView {
        LocalizationEntryView {
            key: self.key@,
            context: self.context@,
            example: self.example@,
            source: self.source@,
            values: self.values.deep_view(),
        }
    }
}

impl View for LocalizationEntryJson {
    type V = LocalizationEntryView;

    open spec fn view(&self) -> LocalizationEntryView {
        LocalizationEntryView {
            key: self.key@,
            context: self.context@,
            example: self.example@,
            source: self.source@,
            values: self.values.deep_view(),
        }
    }
}

impl LocalizationEntryCsv {
    /// The same row, for the JSON text.
    pub fn to_json(self) -> (entry: LocalizationEntryJson)
        ensures
            entry@ == self@,
    {
        LocalizationEntryJson {
            key: self.key,
            context: self.context,
            example: self.example,
            source: self.source,
            values: self.values,
        }
    }
}

/// Whether `name` is one of the four fixed columns.
pub open spec fn is_fixed_column(name: Seq<char>) -> bool {
    name == "key"@ || name == "context"@ || name == "example"@ || name == "source"@
}

/// Whether column `at` is named `name` and no other column is.
pub open spec fn is_sole_column(header: Seq<Seq<char>>, name: Seq<char>, at: int) -> bool {
    &&& 0 <= at < header.len()
    &&& header[at] == name
    &&& forall|j: int| 0 <= j < header.len() && header[j] == name ==> j == at
}

/// Whether exactly one column is named `name`.
pub open spec fn has_sole_column(header: Seq<Seq<char>>, name: Seq<char>) -> bool {
    exists|at: int| is_sole_column(header, name, at)
}

/// The column named `name`, where exactly one is.
pub open spec fn sole_column(header: Seq<Seq<char>>, name: Seq<char>) -> int {
    choose|at: int| is_sole_column(header, name, at)
}

/// Where `values` holds the locale `name`: the last such position, or `-1`.
pub open spec fn locale_position(values: Seq<(Seq<char>, Seq<char>)>, name: Seq<char>) -> int
    decreases values.len(),
{
    if values.len() == 0 {
        -1
    } else if values.last().0 == name {
        values.len() - 1
    } else {
        locale_position(values.drop_last(), name)
    }
}

/// `values` with `text` as the translation into `name`: in the place of the
/// translation that it had, or else at its end.
pub open spec fn with_translation(
    values: Seq<(Seq<char>, Seq<char>)>,
    name: Seq<char>,
    text: Seq<char>,
) -> Seq<(Seq<char>, Seq<char>)> {
    let at = locale_position(values, name);
    if at < 0 {
        values.push((name, text))
    } else {
        values.update(at, (name, text))
    }
}

/// The translations that the first `columns` columns of `row` hold.
pub open spec fn spec_translations(header: Seq<Seq<char>>, row: Seq<Seq<char>>, columns: int) -> Seq<
    (Seq<char>, Seq<char>),
>
    decreases columns,
{
    if columns <= 0 {
        Seq::empty()
    } else {
        let before = spec_translations(header, row, columns - 1);
        if is_fixed_column(header[columns - 1]) {
            before
        } else {
            with_translation(before, header[columns - 1], row[columns - 1])
        }
    }
}

/// The entry that `row` holds under `header`. There is none where the row
/// has not as many fields as the header, or where one of the fixed columns
/// is missing or named twice.
pub open spec fn spec_entry(header: Seq<Seq<char>>, row: Seq<Seq<char>>) -> Option<
    LocalizationEntryView,
> {
    if row.len() == header.len() && has_sole_column(header, "key"@) && has_sole_column(
        header,
        "context"@,
    ) && has_sole_column(header, "example"@) && has_sole_column(header, "source"@) {
        Some(
            LocalizationEntryView {
                key: row[sole_column(header, "key"@)],
                context: row[sole_column(header, "context"@)],
                example: row[sole_column(header, "example"@)],
                source: row[sole_column(header, "source"@)],
                values: spec_translations(header, row, header.len() as int),
            },
        )
    } else {
        None
    }
}

/// The entries of a table, from its records: one for each record after the
/// first, which names the columns. There are none where some record holds
/// no entry.
pub open spec fn spec_entries(rows: Seq<Seq<Seq<char>>>) -> Option<Seq<LocalizationEntryView>> {
    if rows.len() == 0 {
        Some(Seq::empty())
    } else if forall|i: int| 1 <= i < rows.len() ==> spec_entry(rows[0], #[trigger] rows[i]) is Some {
        Some(Seq::new((rows.len() - 1) as nat, |i: int| spec_entry(rows[0], rows[i + 1])->0))
    } else {
        None
    }
}

/// The members of a JSON object, one for each translation.
pub open spec fn spec_translations_json(values: Seq<(Seq<char>, Seq<char>)>) -> Seq<char>
    decreases values.len(),
{
    if values.len() == 0 {
        Seq::empty()
    } else {
        let member = json_string_literal(values.last().0) + ":"@ + json_string_literal(values.last().1);
        if values.len() == 1 {
            member
        } else {
            spec_translations_json(values.drop_last()) + ","@ + member
        }
    }
}

/// The JSON object of one entry.
pub open spec fn spec_entry_json(entry: LocalizationEntryView) -> Seq<char> {
    "{\"key\":"@ + json_string_literal(entry.key) + ",\"context\":"@ + json_string_literal(
        entry.context,
    ) + ",\"example\":"@ + json_string_literal(entry.example) + ",\"source\":"@
        + json_string_literal(entry.source) + ",\"values\":{"@ + spec_translations_json(entry.values)
        + "}}"@
}

/// The JSON objects of `entries`, with commas between them.
pub open spec fn spec_entries_json(entries: Seq<LocalizationEntryView>) -> Seq<char>
    decreases entries.len(),
{
    if entries.len() == 0 {
        Seq::empty()
    } else if entries.len() == 1 {
        spec_entry_json(entries.last())
    } else {
        spec_entries_json(entries.drop_last()) + ","@ + spec_entry_json(entries.last())
    }
}

/// The JSON array of a table.
pub open spec fn spec_table_json(entries: Seq<LocalizationEntryView>) -> Seq<char> {
    "["@ + spec_entries_json(entries) + "]"@
}

/// The JSON text of the table that `contents` holds as CSV; nothing where the
/// CSV reader gives an error or a record holds no entry.
pub open spec fn spec_localization_json(contents: Seq<u8>) -> Option<Seq<char>> {
    match csv_records(contents) {
        None => None,
        Some(rows) => match spec_entries(rows) {
            None => None,
            Some(entries) => Some(spec_table_json(entries)),
        },
    }
}

/// What a list of entries stands for.
pub open spec fn entries_model(entries: Seq<LocalizationEntryJson>) -> Seq<LocalizationEntryView> {
    Seq::new(entries.len(), |i: int| entries[i]@)
}

/// Whether `name` is one of the four fixed columns.
pub fn is_fixed(name: &str) -> (yes: bool)
    ensures
        yes == is_fixed_column(name@),
{
    str_equal(name, "key") || str_equal(name, "context") || str_equal(name, "example") || str_equal(
        name,
        "source",
    )
}

/// The column of `header` that is named `name`, where exactly one is.
pub fn find_sole_column(header: &Vec<String>, name: &str) -> (found: Option<usize>)
    ensures
        match found {
            Some(at) => is_sole_column(header.deep_view(), name@, at as int),
            None => !has_sole_column(header.deep_view(), name@),
        },
{
    let ghost columns = header.deep_view();
    let mut first: Option<usize> = None;
    let mut twice = false;
    let mut i: usize = 0;
    while i < header.len()
        invariant
            i <= header.len(),
            columns == header.deep_view(),
            match first {
                Some(at) => at < i && columns[at as int] == name@,
                None => !twice,
            },
            twice ==> exists|a: int, b: int|
                0 <= a < b < i && columns[a] == name@ && columns[b] == name@,
            !twice ==> forall|j: int|
                0 <= j < i && columns[j] == name@ ==> first == Some(j as usize),
        decreases header.len() - i,
    {
        assert(columns[i as int] == header[i as int]@);
        if str_equal(header[i].as_str(), name) {
            match first {
                Some(at) => {
                    assert(columns[at as int] == name@ && columns[i as int] == name@);
                    twice = true;
                },
                None => {
                    first = Some(i);
                },
            }
        }
        i += 1;
    }
    if twice {
        proof {
            let (a, b) = choose|a: int, b: int|
                0 <= a < b < i && columns[a] == name@ && columns[b] == name@;
            assert forall|at: int| !is_sole_column(columns, name@, at) by {
                if is_sole_column(columns, name@, at) {
                    assert(a == at && b == at);
                }
            }
        }
        None
    } else {
        first
    }
}

/// Where `values` holds the locale `name`, if it does.
fn find_locale(values: &Vec<(String, String)>, name: &str) -> (found: Option<usize>)
    ensures
        match found {
            Some(at) => at < values.len() && at as int == locale_position(values.deep_view(), name@),
            None => locale_position(values.deep_view(), name@) == -1,
        },
{
    let ghost pairs = values.deep_view();
    let mut i: usize = values.len();
    assert(pairs.take(i as int) == pairs);
    while i > 0
        invariant
            i <= values.len(),
            pairs == values.deep_view(),
            locale_position(pairs, name@) == locale_position(pairs.take(i as int), name@),
        decreases i,
    {
        proof {
            let front = pairs.take(i as int);
            assert(front.drop_last() == pairs.take(i - 1));
            assert(front.last() == pairs[i - 1]);
            assert(pairs[i - 1].0 == values[i - 1].0@);
        }
        i -= 1;
        if str_equal(values[i].0.as_str(), name) {
            return Some(i);
        }
    }
    assert(pairs.take(0).len() == 0);
    None
}

/// Sets the translation into `name` to `text`.
fn put_translation(values: &mut Vec<(String, String)>, name: String, text: String)
    ensures
        final(values).deep_view() == with_translation(old(values).deep_view(), name@, text@),
{
    match find_locale(values, name.as_str()) {
        Some(at) => {
            values[at] = (name, text);
            assert(values.deep_view() =~= old(values).deep_view().update(at as int, (name@, text@)));
        },
        None => {
            values.push((name, text));
            assert(values.deep_view() =~= old(values).deep_view().push((name@, text@)));
        },
    }
}

/// The entry that `row` holds under `header`, if it holds one.
pub fn entry_from_row(header: &Vec<String>, row: &Vec<String>) -> (entry: Option<LocalizationEntryCsv>)
    ensures
        match entry {
            Some(e) => spec_entry(header.deep_view(), row.deep_view()) == Some(e@),
            None => spec_entry(header.deep_view(), row.deep_view()) is None,
        },
{
    let ghost columns = header.deep_view();
    let ghost fields = row.deep_view();
    if row.len() != header.len() {
        return None;
    }
    let key_at = match find_sole_column(header, "key") {
        Some(at) => at,
        None => {
            return None;
        },
    };
    let context_at = match find_sole_column(header, "context") {
        Some(at) => at,
        None => {
            return None;
        },
    };
    let example_at = match find_sole_column(header, "example") {
        Some(at) => at,
        None => {
            return None;
        },
    };
    let source_at = match find_sole_column(header, "source") {
        Some(at) => at,
        None => {
            return None;
        },
    };
    let mut values: Vec<(String, String)> = Vec::new();
    let mut i: usize = 0;
    assert(values.deep_view() =~= spec_translations(columns, fields, 0));
    while i < header.len()
        invariant
            i <= header.len(),
            row.len() == header.len(),
            columns == header.deep_view(),
            fields == row.deep_view(),
            values.deep_view() == spec_translations(columns, fields, i as int),
        decreases header.len() - i,
    {
        assert(columns[i as int] == header[i as int]@);
        assert(fields[i as int] == row[i as int]@);
        if !is_fixed(header[i].as_str()) {
            put_translation(&mut values, header[i].clone(), row[i].clone());
        }
        i += 1;
    }
    let entry = LocalizationEntryCsv {
        key: row[key_at].clone(),
        context: row[context_at].clone(),
        example: row[example_at].clone(),
        source: row[source_at].clone(),
        values,
    };
    proof {
        assert(is_sole_column(columns, "key"@, key_at as int));
        assert(is_sole_column(columns, "context"@, context_at as int));
        assert(is_sole_column(columns, "example"@, example_at as int));
        assert(is_sole_column(columns, "source"@, source_at as int));
        assert(fields[key_at as int] == row[key_at as int]@);
        assert(fields[context_at as int] == row[context_at as int]@);
        assert(fields[example_at as int] == row[example_at as int]@);
        assert(fields[source_at as int] == row[source_at as int]@);
    }
    Some(entry)
}

/// The entries of the table whose records are `rows`, the record of the
/// column names first; nothing where some record holds no entry.
pub fn entries_from_rows(rows: &Vec<Vec<String>>) -> (entries: Option<Vec<LocalizationEntryJson>>)
    ensures
        match entries {
            Some(list) => spec_entries(rows.deep_view()) == Some(entries_model(list@)),
            None => spec_entries(rows.deep_view()) is None,
        },
{
    let ghost records = rows.deep_view();
    let mut list: Vec<LocalizationEntryJson> = Vec::new();
    if rows.len() == 0 {
        assert(entries_model(list@) =~= Seq::empty());
        return Some(list);
    }
    let mut i: usize = 1;
    while i < rows.len()
        invariant
            1 <= i <= rows.len(),
            records == rows.deep_view(),
            list.len() == i - 1,
            forall|j: int| 1 <= j < i ==> spec_entry(records[0], #[trigger] records[j]) == Some(list[j - 1]@),
        decreases rows.len() - i,
    {
        assert(records[0] == rows[0].deep_view());
        assert(records[i as int] == rows[i as int].deep_view());
        match entry_from_row(&rows[0], &rows[i]) {
            Some(entry) => {
                list.push(entry.to_json());
            },
            None => {
                assert(spec_entry(records[0], records[i as int]) is None);
                return None;
            },
        }
        i += 1;
    }
    assert(entries_model(list@) =~= Seq::new(
        (records.len() - 1) as nat,
        |i: int| spec_entry(records[0], records[i + 1])->0,
    ));
    Some(list)
}

/// The members of a JSON object, one for each translation.
fn translations_json(values: &Vec<(String, String)>) -> (out: String)
    ensures
        out@ == spec_translations_json(values.deep_view()),
{
    let ghost pairs = values.deep_view();
    let mut out = String::new();
    let mut i: usize = 0;
    assert(pairs.take(0) =~= Seq::empty());
    while i < values.len()
        invariant
            i <= values.len(),
            pairs == values.deep_view(),
            out@ == spec_translations_json(pairs.take(i as int)),
        decreases values.len() - i,
    {
        proof {
            let upto = pairs.take(i + 1);
            assert(upto.drop_last() == pairs.take(i as int));
            assert(upto.last() == pairs[i as int]);
            assert(pairs[i as int] == (values[i as int].0@, values[i as int].1@));
        }
        if i > 0 {
            out.append(",");
        }
        let locale = json_string(values[i].0.as_str());
        let text = json_string(values[i].1.as_str());
        out.append(locale.as_str());
        out.append(":");
        out.append(text.as_str());
        proof {
            let member = json_string_literal(pairs[i as int].0) + ":"@ + json_string_literal(
                pairs[i as int].1,
            );
            if i == 0 {
                assert(out@ =~= member);
            } else {
                assert(out@ =~= spec_translations_json(pairs.take(i as int)) + ","@ + member);
            }
        }
        i += 1;
    }
    assert(pairs.take(i as int) == pairs);
    out
}

/// The JSON object of one entry.
pub fn entry_json(entry: &LocalizationEntryJson) -> (out: String)
    ensures
        out@ == spec_entry_json(entry@),
{
    let key = json_string(entry.key.as_str());
    let context = json_string(entry.context.as_str());
    let example = json_string(entry.example.as_str());
    let source = json_string(entry.source.as_str());
    let values = translations_json(&entry.values);
    let mut out = String::from_str("{\"key\":");
    out.append(key.as_str());
    out.append(",\"context\":");
    out.append(context.as_str());
    out.append(",\"example\":");
    out.append(example.as_str());
    out.append(",\"source\":");
    out.append(source.as_str());
    out.append(",\"values\":{");
    out.append(values.as_str());
    out.append("}}");
    out
}

/// The JSON array of a table.
pub fn table_json(entries: &Vec<LocalizationEntryJson>) -> (out: String)
    ensures
        out@ == spec_table_json(entries_model(entries@)),
{
    let ghost model = entries_model(entries@);
    let mut out = String::from_str("[");
    let mut i: usize = 0;
    assert(model.take(0) =~= Seq::empty());
    assert(out@ =~= "["@ + spec_entries_json(model.take(0)));
    while i < entries.len()
        invariant
            i <= entries.len(),
            model == entries_model(entries@),
            out@ == "["@ + spec_entries_json(model.take(i as int)),
        decreases entries.len() - i,
    {
        proof {
            let upto = model.take(i + 1);
            assert(upto.drop_last() == model.take(i as int));
            assert(upto.last() == entries[i as int]@);
        }
        if i > 0 {
            out.append(",");
        }
        let object = entry_json(&entries[i]);
        out.append(object.as_str());
        proof {
            let member = spec_entry_json(entries[i as int]@);
            if i == 0 {
                assert(out@ =~= "["@ + member);
            } else {
                assert(out@ =~= "["@ + (spec_entries_json(model.take(i as int)) + ","@ + member));
            }
        }
        i += 1;
    }
    assert(model.take(i as int) == model);
    out.append("]");
    out
}

/// The JSON text of the table that `contents` holds as CSV; nothing where the
/// table is malformed.
pub fn localization_json(contents: &[u8]) -> (out: Option<String>)
    ensures
        match out {
            Some(text) => spec_localization_json(contents@) == Some(text@),
            None => spec_localization_json(contents@) is None,
        },
{
    match read_csv_records(contents) {
        Ok(rows) => match entries_from_rows(&rows) {
            Some(entries) => Some(table_json(&entries)),
            None => None,
        },
        Err(_) => None,
    }
}

} // verus!
