//! The grammar of a training record: one line of text, its fields parted by
//! commas, the features first and the label last.
//!
//! The library parts a line into the text of its fields; what number a field
//! denotes is for the caller to read.

use vstd::prelude::*;

verus! {

/// The byte that parts two fields.
pub const COMMA: u8 = 44;

/// No byte of the field is a comma.
pub open spec fn comma_free(field: Seq<u8>) -> bool {
    forall|j: int| 0 <= j < field.len() ==> field[j] != COMMA
}

/// The fields written one after the other with a comma between each two.
pub open spec fn joined(fields: Seq<Seq<u8>>) -> Seq<u8>
    decreases fields.len(),
{
    if fields.len() == 0 {
        Seq::empty()
    } else if fields.len() == 1 {
        fields[0]
    } else {
        joined(fields.drop_last()).push(COMMA) + fields.last()
    }
}

/// `fields` are the fields of `text`: there is at least one, none holds a
/// comma, and joined by commas they give the text back. A text has exactly
/// one such sequence of fields, one more than it has commas.
pub open spec fn is_fields_of(fields: Seq<Seq<u8>>, text: Seq<u8>) -> bool {
    &&& fields.len() >= 1
    &&& forall|i: int| 0 <= i < fields.len() ==> comma_free(#[trigger] fields[i])
    &&& joined(fields) == text
}

/// The fields of a list of byte vectors, each as a sequence.
pub open spec fn texts(fields: Seq<Vec<u8>>) -> Seq<Seq<u8>> {
    Seq::new(fields.len(), |i: int| fields[i]@)
}

/// Opening a new, empty field writes one comma.
pub proof fn lemma_joined_new_field(fields: Seq<Seq<u8>>)
    requires
        fields.len() >= 1,
    ensures
        joined(fields.push(Seq::empty())) == joined(fields).push(COMMA),
{
    let longer = fields.push(Seq::<u8>::empty());
    assert(longer.drop_last() =~= fields);
    assert(joined(longer) =~= joined(fields).push(COMMA));
}

/// A byte added to the last field is a byte added to the text.
pub proof fn lemma_joined_grow_last(fields: Seq<Seq<u8>>, last: Seq<u8>, byte: u8)
    ensures
        joined(fields.push(last.push(byte))) == joined(fields.push(last)).push(byte),
{
    let before = fields.push(last);
    let after = fields.push(last.push(byte));
    assert(before.drop_last() =~= fields);
    assert(after.drop_last() =~= fields);
    assert(joined(after) =~= joined(before).push(byte));
}

/// Parts a text at its commas into its fields.
pub fn split_fields(text: &[u8]) -> (fields: Vec<Vec<u8>>)
    ensures
        is_fields_of(texts(fields@), text@),
{
    let mut done: Vec<Vec<u8>> = Vec::new();
    let mut current: Vec<u8> = Vec::new();
    let mut i: usize = 0;
    proof {
        let start = texts(done@).push(current@);
        assert(start.len() == 1 && start[0] =~= Seq::<u8>::empty());
        assert(joined(start) =~= text@.subrange(0, 0));
    }
    while i < text.len()
        invariant
            i <= text@.len(),
            is_fields_of(texts(done@).push(current@), text@.subrange(0, i as int)),
        decreases text@.len() - i,
    {
        let byte = text[i];
        let ghost closed = texts(done@);
        let ghost open = current@;
        proof {
            assert(text@.subrange(0, i + 1) =~= text@.subrange(0, i as int).push(byte));
        }
        if byte == COMMA {
            done.push(current);
            current = Vec::new();
            proof {
                assert(texts(done@) =~= closed.push(open));
                lemma_joined_new_field(closed.push(open));
            }
        } else {
            current.push(byte);
            proof {
                lemma_joined_grow_last(closed, open, byte);
                let grown = closed.push(current@);
                assert forall|k: int| 0 <= k < grown.len() implies comma_free(
                    #[trigger] grown[k],
                ) by {
                    if k < closed.len() {
                        assert(grown[k] == closed.push(open)[k]);
                    } else {
                        assert(comma_free(closed.push(open)[k]));
                    }
                }
            }
        }
        i += 1;
    }
    proof {
        assert(text@.subrange(0, i as int) =~= text@);
    }
    let ghost closed = texts(done@);
    let ghost open = current@;
    done.push(current);
    proof {
        assert(texts(done@) =~= closed.push(open));
    }
    done
}

/// Some byte of the line is a comma.
pub open spec fn has_comma(line: Seq<u8>) -> bool {
    exists|j: int| 0 <= j < line.len() && line[j] == COMMA
}

/// A text of two or more fields holds a comma where its last field begins,
/// and none after it: the last field is what follows the last comma, and the
/// fields before it are the fields of what precedes that comma.
pub proof fn lemma_last_field_follows_last_comma(fields: Seq<Seq<u8>>, text: Seq<u8>)
    requires
        is_fields_of(fields, text),
        fields.len() >= 2,
    ensures
        ({
            let at = joined(fields.drop_last()).len() as int;
            &&& at < text.len()
            &&& text[at] == COMMA
            &&& forall|j: int| at < j < text.len() ==> text[j] != COMMA
            &&& text.subrange(at + 1, text.len() as int) == fields.last()
            &&& text.subrange(0, at) == joined(fields.drop_last())
            &&& is_fields_of(fields.drop_last(), text.subrange(0, at))
        }),
{
    let front = joined(fields.drop_last());
    let at = front.len() as int;
    let last = fields.last();
    assert(text == front.push(COMMA) + last);
    assert(comma_free(last));
    assert forall|j: int| at < j < text.len() implies text[j] != COMMA by {
        assert(text[j] == last[j - at - 1]);
    }
    assert(text.subrange(at + 1, text.len() as int) =~= last);
    assert(text.subrange(0, at) =~= front);
    assert forall|i: int| 0 <= i < fields.drop_last().len() implies comma_free(
        #[trigger] fields.drop_last()[i],
    ) by {
        assert(fields.drop_last()[i] == fields[i]);
    }
}

/// A text of one field holds no comma, and a text of more fields holds one.
pub proof fn lemma_one_field_iff_no_comma(fields: Seq<Seq<u8>>, text: Seq<u8>)
    requires
        is_fields_of(fields, text),
    ensures
        fields.len() == 1 <==> !has_comma(text),
{
    if fields.len() == 1 {
        assert(comma_free(fields[0]));
    } else {
        lemma_last_field_follows_last_comma(fields, text);
        let at = joined(fields.drop_last()).len() as int;
        assert(0 <= at < text.len() && text[at] == COMMA);
    }
}

/// A text has only one sequence of fields.
pub proof fn lemma_fields_unique(first: Seq<Seq<u8>>, second: Seq<Seq<u8>>, text: Seq<u8>)
    requires
        is_fields_of(first, text),
        is_fields_of(second, text),
    ensures
        first == second,
    decreases first.len(),
{
    lemma_one_field_iff_no_comma(first, text);
    lemma_one_field_iff_no_comma(second, text);
    if first.len() == 1 {
        assert(first =~= second);
    } else {
        lemma_last_field_follows_last_comma(first, text);
        lemma_last_field_follows_last_comma(second, text);
        let at = joined(first.drop_last()).len() as int;
        let other = joined(second.drop_last()).len() as int;
        assert(at == other);
        lemma_fields_unique(first.drop_last(), second.drop_last(), text.subrange(0, at));
        assert(first =~= first.drop_last().push(first.last()));
        assert(second =~= second.drop_last().push(second.last()));
    }
}

/// One training example as it stands in a line of text: the text of each
/// feature, in order, and the text of the label.
#[derive(Debug)]
pub struct Record {
    /// The text of each feature.
    pub features: Vec<Vec<u8>>,
    /// The text of the label.
    pub label: Vec<u8>,
}

impl Record {
    /// This is the record that `line` holds: the features and then the label
    /// are the fields of the line, and there is at least one feature.
    pub open spec fn is_record_of(&self, line: Seq<u8>) -> bool {
        &&& self.features@.len() >= 1
        &&& is_fields_of(texts(self.features@).push(self.label@), line)
    }
}

/// Reads one line as a training record. A line without a comma holds no
/// record; every other line holds exactly one, with the label after the last
/// comma and the features, parted by commas, before it.
pub fn parse_record(line: &[u8]) -> (found: Option<Record>)
    ensures
        match found {
            Some(record) => has_comma(line@) && record.is_record_of(line@),
            None => !has_comma(line@),
        },
{
    let mut fields = split_fields(line);
    let ghost all = texts(fields@);
    proof {
        lemma_one_field_iff_no_comma(all, line@);
    }
    if fields.len() < 2 {
        return None;
    }
    match fields.pop() {
        Some(label) => {
            proof {
                assert(texts(fields@).push(label@) =~= all);
            }
            Some(Record { features: fields, label })
        },
        None => None,
    }
}

/// A line holds at most one record: two records of one line agree in every
/// feature and in the label.
pub proof fn lemma_record_unique(first: Record, second: Record, line: Seq<u8>)
    requires
        first.is_record_of(line),
        second.is_record_of(line),
    ensures
        texts(first.features@) == texts(second.features@),
        first.label@ == second.label@,
{
    let a = texts(first.features@).push(first.label@);
    let b = texts(second.features@).push(second.label@);
    lemma_fields_unique(a, b, line);
    assert(a.drop_last() =~= texts(first.features@));
    assert(b.drop_last() =~= texts(second.features@));
    assert(a.last() == first.label@);
    assert(b.last() == second.label@);
}

/// The lines that hold a record, in their order: those with a comma.
pub open spec fn record_lines(lines: Seq<Seq<u8>>) -> Seq<Seq<u8>>
    decreases lines.len(),
{
    if lines.len() == 0 {
        Seq::empty()
    } else if has_comma(lines.last()) {
        record_lines(lines.drop_last()).push(lines.last())
    } else {
        record_lines(lines.drop_last())
    }
}

/// `records` are the records of `lines`, one for each line that holds one,
/// in the order of the lines.
pub open spec fn are_records_of(records: Seq<Record>, lines: Seq<Seq<u8>>) -> bool {
    &&& records.len() == record_lines(lines).len()
    &&& forall|i: int|
        0 <= i < records.len() ==> (#[trigger] records[i]).is_record_of(record_lines(lines)[i])
}

/// Reads the records of a text given line by line. A line without a comma
/// is passed over in silence; no line is refused.
pub fn parse_records(lines: &[Vec<u8>]) -> (records: Vec<Record>)
    ensures
        are_records_of(records@, texts(lines@)),
{
    let mut records: Vec<Record> = Vec::new();
    let mut i: usize = 0;
    proof {
        assert(texts(lines@).take(0) =~= Seq::<Seq<u8>>::empty());
    }
    while i < lines.len()
        invariant
            i <= lines@.len(),
            are_records_of(records@, texts(lines@).take(i as int)),
        decreases lines@.len() - i,
    {
        let ghost seen = texts(lines@).take(i as int);
        let ghost kept = records@;
        proof {
            let next = texts(lines@).take(i + 1);
            assert(next.drop_last() =~= seen);
            assert(next.last() == lines@[i as int]@);
        }
        match parse_record(lines[i].as_slice()) {
            Some(record) => {
                records.push(record);
                proof {
                    assert forall|k: int| 0 <= k < records@.len() implies (
                    #[trigger] records@[k]).is_record_of(
                        record_lines(texts(lines@).take(i + 1))[k],
                    ) by {
                        if k < kept.len() {
                            assert(records@[k] == kept[k]);
                        }
                    }
                }
            },
            None => {},
        }
        i += 1;
    }
    proof {
        assert(texts(lines@).take(i as int) =~= texts(lines@));
    }
    records
}

} // verus!
