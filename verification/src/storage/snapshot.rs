//! The snapshot format: one record per line, each line made of four fields
//! with a NUL character between them: key, value, expiry and last access.
//! The two times are decimal numbers of seconds; an expiry of `0` stands for
//! a record that never expires.
//!
//! Reading takes the text apart at line feeds, drops the carriage return that
//! stands before a line feed, and skips every line that is not made of four
//! fields the last two of which are numbers.

use crate::storage::{
    entries_of, order_after_set, record_view, record_views, well_formed, Record, RecordView,
    Storage,
};
use crate::utils::text::{
    all_digits, decimal_text, from_chars, is_digit, lemma_decimal_text, lemma_parse_decimal_text,
    lemma_split_extend, lemma_split_len, lemma_split_next, lemma_split_plain, parse_decimal,
    parse_unsigned, push_all, push_decimal, slice_chars, split, split_chars, texts, to_chars,
};
use vstd::prelude::*;

verus! {

/// The number that stands for an expiry in a snapshot.
pub open spec fn expiry_code(exp_time: Option<u64>) -> nat {
    match exp_time {
        None => 0,
        Some(e) => e as nat,
    }
}

/// The expiry that a number in a snapshot stands for.
pub open spec fn expiry_of(code: u64) -> Option<u64> {
    if code == 0 {
        None
    } else {
        Some(code)
    }
}

/// The line of a record, without the line feed that ends it.
pub open spec fn record_line(r: RecordView) -> Seq<char> {
    r.key.push('\0') + r.value.push('\0') + decimal_text(expiry_code(r.exp_time)).push('\0')
        + decimal_text(r.last_acc_time as nat)
}

/// The snapshot of the records `records`: their lines, in order, each ended
/// by a line feed.
pub open spec fn snapshot_text(records: Seq<RecordView>) -> Seq<char>
    decreases records.len(),
{
    if records.len() == 0 {
        Seq::<char>::empty()
    } else {
        snapshot_text(records.drop_last()) + record_line(records.last()).push('\n')
    }
}

/// A line without the carriage return at its end, if it has one.
pub open spec fn strip_cr(line: Seq<char>) -> Seq<char> {
    if line.len() > 0 && line.last() == '\r' {
        line.drop_last()
    } else {
        line
    }
}

/// The lines of a text: what stands between its line feeds.  A line that a
/// line feed ends comes without the carriage return before that line feed;
/// what follows the last line feed is a line as it stands.
pub open spec fn text_lines(text: Seq<char>) -> Seq<Seq<char>> {
    let pieces = split(text, '\n');
    pieces.drop_last().map_values(|line: Seq<char>| strip_cr(line)).push(pieces.last())
}

/// The record that a line stands for, if it is made of four fields the last
/// two of which are unsigned decimal numbers that fit.
pub open spec fn parse_line(line: Seq<char>) -> Option<RecordView> {
    let fields = split(line, '\0');
    if fields.len() == 4 {
        match (
            parse_unsigned(fields[2], u64::MAX as nat),
            parse_unsigned(fields[3], u64::MAX as nat),
        ) {
            (Some(e), Some(a)) => Some(
                RecordView {
                    key: fields[0],
                    value: fields[1],
                    exp_time: expiry_of(e as u64),
                    last_acc_time: a as u64,
                },
            ),
            _ => None,
        }
    } else {
        None
    }
}

/// The table and the order of its keys after the lines `lines` have been
/// loaded into `table`, one after the other: a line that stands for a record
/// puts that record, any other line changes nothing.
pub open spec fn load_lines(
    table: Map<Seq<char>, RecordView>,
    order: Seq<Seq<char>>,
    lines: Seq<Seq<char>>,
) -> (Map<Seq<char>, RecordView>, Seq<Seq<char>>)
    decreases lines.len(),
{
    if lines.len() == 0 {
        (table, order)
    } else {
        let (before, before_order) = load_lines(table, order, lines.drop_last());
        match parse_line(lines.last()) {
            Some(r) => (before.insert(r.key, r), order_after_set(before, before_order, r.key)),
            None => (before, before_order),
        }
    }
}

/// Whether a record comes back from a snapshot as it went in: its key and
/// value hold neither a NUL nor a line feed, and its expiry is not the
/// instant zero, which a snapshot reads as "never".
pub open spec fn storable(r: RecordView) -> bool {
    &&& !r.key.contains('\0')
    &&& !r.key.contains('\n')
    &&& !r.value.contains('\0')
    &&& !r.value.contains('\n')
    &&& r.exp_time != Some(0u64)
}

/// Appends the line of `record`, without a line feed, to `out`.
fn push_record_line(out: &mut Vec<char>, record: &Record)
    ensures
        final(out)@ == old(out)@ + record_line(record@),
{
    let key = to_chars(record.key.as_str());
    let value = to_chars(record.value.as_str());
    let code: u64 = match record.exp_time {
        None => 0,
        Some(e) => e,
    };
    push_all(out, &key);
    out.push('\0');
    push_all(out, &value);
    out.push('\0');
    push_decimal(out, code);
    out.push('\0');
    push_decimal(out, record.last_acc_time);
    assert(out@ == old(out)@ + record_line(record@));
}

/// The snapshot of `records`.
pub fn encode_snapshot(records: &Vec<Record>) -> (text: String)
    ensures
        text@ == snapshot_text(record_views(records@)),
{
    let ghost all = record_views(records@);
    let mut out: Vec<char> = Vec::new();
    let mut i: usize = 0;
    assert(all.take(0) == Seq::<RecordView>::empty());
    while i < records.len()
        invariant
            i <= records.len(),
            all == record_views(records@),
            out@ == snapshot_text(all.take(i as int)),
        decreases records.len() - i,
    {
        let ghost before = out@;
        push_record_line(&mut out, &records[i]);
        out.push('\n');
        proof {
            assert(all.take(i + 1).drop_last() == all.take(i as int));
            assert(all.take(i + 1).last() == records@[i as int]@);
            assert(out@ == before + record_line(records@[i as int]@).push('\n'));
        }
        i += 1;
    }
    assert(all.take(i as int) == all);
    from_chars(&out)
}

/// The record that `line` stands for, if it stands for one.
pub fn decode_line(line: &Vec<char>) -> (record: Option<Record>)
    ensures
        record_view(record) == parse_line(line@),
{
    let fields = split_chars(line, '\0');
    if fields.len() != 4 {
        assert(texts(fields@).len() == fields@.len());
        return None;
    }
    assert(texts(fields@)[0] == fields@[0]@);
    assert(texts(fields@)[1] == fields@[1]@);
    assert(texts(fields@)[2] == fields@[2]@);
    assert(texts(fields@)[3] == fields@[3]@);
    let expiry = parse_decimal(&fields[2]);
    let access = parse_decimal(&fields[3]);
    match (expiry, access) {
        (Some(e), Some(a)) => {
            let exp_time: Option<u64> = if e == 0 {
                None
            } else {
                Some(e)
            };
            Some(
                Record {
                    key: from_chars(&fields[0]),
                    value: from_chars(&fields[1]),
                    exp_time,
                    last_acc_time: a,
                },
            )
        },
        _ => None,
    }
}

impl Storage {
    /// The snapshot of the table: its records in the order of their keys.
    pub fn save_to_text(&self) -> (text: String)
        requires
            self.wf(),
        ensures
            text@ == snapshot_text(self.entries()),
    {
        let copies = self.records();
        encode_snapshot(&copies)
    }

    /// Loads one line of a snapshot, given without its line feed and
    /// carriage return.  Tells whether the line stood for a record.
    pub fn load_line(&mut self, line: &str) -> (loaded: bool)
        requires
            old(self).wf(),
        ensures
            final(self).wf(),
            loaded == parse_line(line@).is_some(),
            (final(self)@, final(self).order()) == load_lines(
                old(self)@,
                old(self).order(),
                seq![line@],
            ),
    {
        let chars = to_chars(line);
        proof {
            let one = seq![line@];
            assert(one.drop_last() == Seq::<Seq<char>>::empty());
            assert(one.last() == line@);
            assert(load_lines(old(self)@, old(self).order(), one.drop_last()) == (
                old(self)@,
                old(self).order(),
            ));
        }
        match decode_line(&chars) {
            Some(record) => {
                self.set(record);
                true
            },
            None => false,
        }
    }

    /// Loads a snapshot into the table, line by line.  Lines that stand for
    /// no record are skipped.  A record that is loaded is put as it stands in
    /// the snapshot, whether or not it has expired.
    pub fn load_from_text(&mut self, text: &str)
        requires
            old(self).wf(),
        ensures
            final(self).wf(),
            (final(self)@, final(self).order()) == load_lines(
                old(self)@,
                old(self).order(),
                text_lines(text@),
            ),
    {
        let chars = to_chars(text);
        let lines = split_chars(&chars, '\n');
        let ghost all = text_lines(text@);
        proof {
            lemma_split_len(text@, '\n');
        }
        assert(all.len() == lines@.len());
        let mut i: usize = 0;
        assert(all.take(0) == Seq::<Seq<char>>::empty());
        while i < lines.len()
            invariant
                self.wf(),
                i <= lines.len(),
                texts(lines@) == split(text@, '\n'),
                all == text_lines(text@),
                all.len() == lines@.len(),
                (self@, self.order()) == load_lines(
                    old(self)@,
                    old(self).order(),
                    all.take(i as int),
                ),
            decreases lines.len() - i,
        {
            let line = &lines[i];
            assert(texts(lines@)[i as int] == line@);
            let n: usize = line.len();
            let decoded = if i + 1 < lines.len() && n > 0 && line[n - 1] == '\r' {
                let bare = slice_chars(line, 0, n - 1);
                assert(bare@ == strip_cr(line@));
                decode_line(&bare)
            } else {
                decode_line(line)
            };
            assert(record_view(decoded) == parse_line(all[i as int]));
            proof {
                assert(all.take(i + 1).drop_last() == all.take(i as int));
                assert(all.take(i + 1).last() == all[i as int]);
            }
            match decoded {
                Some(record) => {
                    self.set(record);
                },
                None => {},
            }
            i += 1;
        }
        assert(all.take(i as int) == all);
    }
}

/// The digits of a number hold neither a NUL nor a line feed.
proof fn lemma_digits_are_plain(s: Seq<char>)
    requires
        all_digits(s),
    ensures
        !s.contains('\0'),
        !s.contains('\n'),
{
    assert forall|i: int| 0 <= i < s.len() implies s[i] != '\0' && s[i] != '\n' by {
        assert(is_digit(s[i]));
    }
}

/// The line of a storable record holds no line feed, does not end in a
/// carriage return, and stands for that record.
pub proof fn lemma_line_round_trip(r: RecordView)
    requires
        storable(r),
    ensures
        !record_line(r).contains('\n'),
        strip_cr(record_line(r)) == record_line(r),
        parse_line(record_line(r)) == Some(r),
{
    let code = expiry_code(r.exp_time);
    let exp = decimal_text(code);
    let acc = decimal_text(r.last_acc_time as nat);
    lemma_decimal_text(code);
    lemma_decimal_text(r.last_acc_time as nat);
    lemma_digits_are_plain(exp);
    lemma_digits_are_plain(acc);
    lemma_parse_decimal_text(code, u64::MAX as nat);
    lemma_parse_decimal_text(r.last_acc_time as nat, u64::MAX as nat);
    let line = record_line(r);
    let one = r.key;
    let two = r.key.push('\0') + r.value;
    let three = two.push('\0') + exp;
    assert(line == three.push('\0') + acc);
    // The fields of the line.
    lemma_split_plain(one, '\0');
    lemma_split_next(one, r.value, '\0');
    lemma_split_next(two, exp, '\0');
    lemma_split_next(three, acc, '\0');
    let fields = split(line, '\0');
    assert(fields == seq![r.key, r.value, exp, acc]);
    assert(fields.len() == 4);
    assert(fields[0] == r.key && fields[1] == r.value && fields[2] == exp && fields[3] == acc);
    assert(expiry_of(code as u64) == r.exp_time);
    // The line as a whole.
    assert(line.last() == acc.last());
    assert(is_digit(acc[acc.len() - 1]));
    assert forall|i: int| 0 <= i < line.len() implies line[i] != '\n' by {
        if i < r.key.len() {
            assert(r.key.contains(line[i]));
        } else if i == r.key.len() {
        } else if i < two.len() {
            assert(r.value[i - r.key.len() - 1] == line[i]);
            assert(r.value.contains(line[i]));
        } else if i == two.len() {
        } else if i < three.len() {
            assert(exp[i - two.len() - 1] == line[i]);
            assert(exp.contains(line[i]));
        } else if i == three.len() {
        } else {
            assert(acc[i - three.len() - 1] == line[i]);
            assert(acc.contains(line[i]));
        }
    }
}

/// The lines of the snapshot of storable records are the lines of the
/// records, followed by one empty line.
pub proof fn lemma_snapshot_lines(records: Seq<RecordView>)
    requires
        forall|i: int| 0 <= i < records.len() ==> storable(#[trigger] records[i]),
    ensures
        text_lines(snapshot_text(records)) == records.map_values(
            |r: RecordView| record_line(r),
        ).push(Seq::<char>::empty()),
        split(snapshot_text(records), '\n') == records.map_values(
            |r: RecordView| record_line(r),
        ).push(Seq::<char>::empty()),
    decreases records.len(),
{
    let none = Seq::<char>::empty();
    let lines = records.map_values(|r: RecordView| record_line(r));
    if records.len() == 0 {
        assert(split(snapshot_text(records), '\n') == seq![none]);
        assert(lines.push(none) == seq![none]);
        assert(text_lines(snapshot_text(records)) == seq![none]);
    } else {
        let front = records.drop_last();
        let last = records.last();
        lemma_snapshot_lines(front);
        lemma_line_round_trip(last);
        let front_lines = front.map_values(|r: RecordView| record_line(r));
        let text = snapshot_text(front);
        lemma_split_extend(text, record_line(last), '\n');
        assert(split(text, '\n').drop_last() == front_lines);
        assert(none + record_line(last) == record_line(last));
        let grown = text + record_line(last);
        assert(split(grown, '\n') == front_lines.push(record_line(last)));
        assert(grown.push('\n').drop_last() == grown);
        assert(snapshot_text(records) == grown.push('\n'));
        assert(front_lines.push(record_line(last)) == lines);
        assert(split(snapshot_text(records), '\n') == lines.push(none));
        assert forall|i: int| 0 <= i < records.len() implies strip_cr(#[trigger] lines[i])
            == lines[i] by {
            lemma_line_round_trip(records[i]);
        }
        assert(text_lines(snapshot_text(records)) == lines.push(none));
    }
}

/// Loading the lines of the first `n` records of a table into an empty table
/// gives those records, in their order.
proof fn lemma_load_prefix(table: Map<Seq<char>, RecordView>, order: Seq<Seq<char>>, n: int)
    requires
        well_formed(table, order),
        forall|k: Seq<char>| #[trigger] table.contains_key(k) ==> storable(table[k]),
        0 <= n <= order.len(),
    ensures
        load_lines(
            Map::<Seq<char>, RecordView>::empty(),
            Seq::<Seq<char>>::empty(),
            entries_of(table, order).map_values(|r: RecordView| record_line(r)).take(n),
        ) == (table.restrict(order.take(n).to_set()), order.take(n)),
    decreases n,
{
    let lines = entries_of(table, order).map_values(|r: RecordView| record_line(r));
    let start = Map::<Seq<char>, RecordView>::empty();
    let none = Seq::<Seq<char>>::empty();
    if n == 0 {
        assert(lines.take(0) == Seq::<Seq<char>>::empty());
        assert(order.take(0) == none);
        assert(table.restrict(order.take(0).to_set()) == start);
    } else {
        lemma_load_prefix(table, order, n - 1);
        let k = order[n - 1];
        assert(order.contains(k));
        assert(table.contains_key(k));
        let r = table[k];
        lemma_line_round_trip(r);
        assert(lines.take(n).drop_last() == lines.take(n - 1));
        assert(lines.take(n).last() == record_line(r));
        let seen = order.take(n - 1);
        let before = table.restrict(seen.to_set());
        if seen.contains(k) {
            let j = choose|j: int| 0 <= j < seen.len() && seen[j] == k;
            assert(order[j] == order[n - 1]);
        }
        assert(!before.contains_key(k));
        assert(order.take(n) == order.take(n - 1).push(k));
        assert forall|x: Seq<char>| order.take(n).to_set().contains(x) <==> (order.take(
            n - 1,
        ).to_set().contains(x) || x == k) by {
            if seen.contains(x) {
                let j = choose|j: int| 0 <= j < seen.len() && seen[j] == x;
                assert(order.take(n)[j] == x);
            }
            if x == k {
                assert(order.take(n)[n - 1] == x);
            }
            if order.take(n).contains(x) {
                let upto = order.take(n);
                let j = choose|j: int| 0 <= j < upto.len() && upto[j] == x;
                if j < n - 1 {
                    assert(order.take(n - 1)[j] == x);
                }
            }
        }
        assert(before.insert(k, r) == table.restrict(order.take(n).to_set()));
    }
}

/// A snapshot brings back what went in.  For every table whose records are
/// storable, loading the snapshot of the table into an empty table gives the
/// same records under the same keys, in the same order.
pub proof fn lemma_snapshot_round_trip(table: Map<Seq<char>, RecordView>, order: Seq<Seq<char>>)
    requires
        well_formed(table, order),
        forall|k: Seq<char>| #[trigger] table.contains_key(k) ==> storable(table[k]),
    ensures
        load_lines(
            Map::<Seq<char>, RecordView>::empty(),
            Seq::<Seq<char>>::empty(),
            text_lines(snapshot_text(entries_of(table, order))),
        ) == (table, order),
{
    let records = entries_of(table, order);
    let lines = records.map_values(|r: RecordView| record_line(r));
    let none = Seq::<char>::empty();
    assert forall|i: int| 0 <= i < records.len() implies storable(#[trigger] records[i]) by {
        assert(order.contains(order[i]));
        assert(table.contains_key(order[i]));
    }
    lemma_snapshot_lines(records);
    lemma_load_prefix(table, order, order.len() as int);
    let all = lines.push(none);
    assert(all.drop_last() == lines);
    assert(lines.take(order.len() as int) == lines);
    assert(order.take(order.len() as int) == order);
    assert(table.restrict(order.to_set()) == table);
    // The empty line behind the last record stands for no record.
    assert(split(none, '\0') == seq![none]);
    assert(parse_line(none).is_none());
}

} // verus!
