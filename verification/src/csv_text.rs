//! Comma-separated records: comma delimiter, newline terminator, minimal quoting with
//! doubled quotes.
use vstd::prelude::*;
use crate::text::{chars_of, contains_char, decimal, decimal_string, join, signed_decimal, signed_string};

verus! {

/// Whether a field has to be quoted.
pub open spec fn needs_quotes(s: Seq<char>) -> bool {
    s.contains(',') || s.contains('"') || s.contains('\r') || s.contains('\n')
}

/// `s` with every quote doubled.
pub open spec fn doubled(s: Seq<char>) -> Seq<char>
    decreases s.len(),
{
    if s.len() == 0 {
        Seq::empty()
    } else if s.last() == '"' {
        doubled(s.drop_last()) + seq!['"', '"']
    } else {
        doubled(s.drop_last()).push(s.last())
    }
}

/// A field as it stands in a record.
pub open spec fn csv_field(s: Seq<char>) -> Seq<char> {
    if needs_quotes(s) {
        seq!['"'] + doubled(s) + seq!['"']
    } else {
        s
    }
}

/// The characters of some strings.
pub open spec fn string_views(v: Seq<String>) -> Seq<Seq<char>> {
    Seq::new(v.len(), |i: int| v[i]@)
}

/// Fields as they stand in a record.
pub open spec fn csv_fields(fields: Seq<Seq<char>>) -> Seq<Seq<char>> {
    Seq::new(fields.len(), |i: int| csv_field(fields[i]))
}

/// A record without its terminator.
pub open spec fn csv_joined(fields: Seq<Seq<char>>) -> Seq<char> {
    join(csv_fields(fields), ',')
}

/// A record.
pub open spec fn csv_line(fields: Seq<Seq<char>>) -> Seq<char> {
    csv_joined(fields).push('\n')
}

/// `csv::Writer::write_record` on an empty in-memory writer, and `into_inner`: the record in
/// the dialect above. Writing to memory does not fail, and the record of strings is valid
/// UTF-8. A record of at least two fields is asked for because the outside writer spells a
/// lone empty field differently.
#[verifier::external_body]
pub(crate) fn csv_record(fields: &Vec<String>) -> (r: String)
    requires
        fields@.len() >= 2,
    ensures
        r@ == csv_line(string_views(fields@)),
{
    let mut writer = csv::Writer::from_writer(Vec::new());
    let _ = writer.write_record(fields);
    String::from_utf8(writer.into_inner().ok().unwrap_or_default()).unwrap_or_default()
}

/// Appends one field, quoted where it has to be.
pub fn push_csv_field(out: &mut String, field: &str)
    ensures
        final(out)@ == old(out)@ + csv_field(field@),
{
    let chars = chars_of(field);
    let quote = contains_char(&chars, ',') || contains_char(&chars, '"') || contains_char(
        &chars,
        '\r',
    ) || contains_char(&chars, '\n');
    if !quote {
        out.push_str(field);
        return ;
    }
    out.push('"');
    let ghost start = out@;
    let mut i: usize = 0;
    proof {
        assert(chars@.take(0) =~= Seq::<char>::empty());
        assert(out@ =~= start + doubled(chars@.take(0)));
    }
    while i < chars.len()
        invariant
            i <= chars@.len(),
            chars@ == field@,
            out@ == start + doubled(chars@.take(i as int)),
        decreases chars@.len() - i,
    {
        proof {
            let next = chars@.take(i + 1);
            assert(next.drop_last() =~= chars@.take(i as int));
            assert(next.last() == chars@[i as int]);
        }
        if chars[i] == '"' {
            out.push('"');
        }
        out.push(chars[i]);
        i = i + 1;
        proof {
            assert(out@ =~= start + doubled(chars@.take(i as int)));
        }
    }
    out.push('"');
    proof {
        assert(chars@.take(i as int) =~= chars@);
        assert(out@ =~= old(out)@ + csv_field(field@));
    }
}

/// Appends fields with commas between them.
pub fn push_csv_fields(out: &mut String, fields: &Vec<String>)
    ensures
        final(out)@ == old(out)@ + csv_joined(string_views(fields@)),
{
    let ghost start = out@;
    let ghost texts = csv_fields(string_views(fields@));
    let mut i: usize = 0;
    proof {
        assert(texts.take(0) =~= Seq::<Seq<char>>::empty());
        assert(out@ =~= start + join(texts.take(0), ','));
    }
    while i < fields.len()
        invariant
            i <= fields@.len(),
            texts == csv_fields(string_views(fields@)),
            out@ == start + join(texts.take(i as int), ','),
        decreases fields@.len() - i,
    {
        proof {
            let next = texts.take(i + 1);
            assert(next.drop_last() =~= texts.take(i as int));
            assert(next.last() == csv_field(fields@[i as int]@));
        }
        if i > 0 {
            out.push(',');
        }
        push_csv_field(out, &fields[i]);
        i = i + 1;
        proof {
            assert(out@ =~= start + join(texts.take(i as int), ','));
        }
    }
    proof {
        assert(texts.take(i as int) =~= texts);
    }
}

// ---------------------------------------------------------------------------
// Reading records back
// ---------------------------------------------------------------------------

/// Where a reader stands inside a record.
pub enum ReadMode {
    /// At the start of a field.
    Start,
    /// Inside an unquoted field.
    Plain,
    /// Inside a quoted field.
    Quoted,
    /// Behind a quote inside a quoted field: its end, or the first of two.
    Quote,
}

/// A reader of records: the fields that are complete, and the one under way.
pub struct Reader {
    pub done: Seq<Seq<char>>,
    pub current: Seq<char>,
    pub mode: ReadMode,
}

impl Reader {
    /// The reader after one more character.
    pub open spec fn step(self, c: char) -> Reader {
        let ended = Reader {
            done: self.done.push(self.current),
            current: Seq::empty(),
            mode: ReadMode::Start,
        };
        match self.mode {
            ReadMode::Start => if c == '"' {
                Reader { mode: ReadMode::Quoted, ..self }
            } else if c == ',' {
                ended
            } else {
                Reader { current: self.current.push(c), mode: ReadMode::Plain, ..self }
            },
            ReadMode::Plain => if c == ',' {
                ended
            } else {
                Reader { current: self.current.push(c), ..self }
            },
            ReadMode::Quoted => if c == '"' {
                Reader { mode: ReadMode::Quote, ..self }
            } else {
                Reader { current: self.current.push(c), ..self }
            },
            ReadMode::Quote => if c == ',' {
                ended
            } else {
                Reader { current: self.current.push(c), mode: ReadMode::Quoted, ..self }
            },
        }
    }

    /// The reader after some more text.
    pub open spec fn read(self, s: Seq<char>) -> Reader
        decreases s.len(),
    {
        if s.len() == 0 {
            self
        } else {
            self.read(s.drop_last()).step(s.last())
        }
    }
}

/// The fields of a record.
pub open spec fn csv_values(record: Seq<char>) -> Seq<Seq<char>> {
    let start = Reader { done: Seq::empty(), current: Seq::empty(), mode: ReadMode::Start };
    let end = start.read(record);
    end.done.push(end.current)
}

proof fn lemma_read_append(r: Reader, a: Seq<char>, b: Seq<char>)
    ensures
        r.read(a + b) == r.read(a).read(b),
    decreases b.len(),
{
    if b.len() == 0 {
        assert(a + b =~= a);
    } else {
        lemma_read_append(r, a, b.drop_last());
        assert((a + b).drop_last() =~= a + b.drop_last());
        assert((a + b).last() == b.last());
    }
}

proof fn lemma_read_one(r: Reader, c: char)
    ensures
        r.read(seq![c]) == r.step(c),
{
    assert(seq![c].drop_last() =~= Seq::<char>::empty());
    assert(r.read(seq![c].drop_last()) == r);
}

/// Inside quotes, doubled text is read as the text itself.
proof fn lemma_read_doubled(r: Reader, s: Seq<char>)
    requires
        r.mode is Quoted,
    ensures
        r.read(doubled(s)) == (Reader { current: r.current + s, ..r }),
    decreases s.len(),
{
    if s.len() == 0 {
        assert(r.current + s =~= r.current);
    } else {
        let d = doubled(s.drop_last());
        lemma_read_doubled(r, s.drop_last());
        let mid = r.read(d);
        assert((r.current + s.drop_last()).push(s.last()) =~= r.current + s);
        if s.last() == '"' {
            lemma_read_append(r, d, seq!['"', '"']);
            assert(seq!['"', '"'].drop_last() =~= seq!['"']);
            lemma_read_one(mid, '"');
            assert(mid.read(seq!['"', '"']) == mid.step('"').step('"'));
        } else {
            assert(doubled(s) =~= d + seq![s.last()]);
            lemma_read_append(r, d, seq![s.last()]);
            lemma_read_one(mid, s.last());
        }
    }
}

/// Text without commas and quotes is read as it stands.
proof fn lemma_read_plain(r: Reader, s: Seq<char>)
    requires
        r.mode is Start,
        r.current.len() == 0,
        !s.contains(','),
        !s.contains('"'),
    ensures
        ({
            let end = r.read(s);
            end.done == r.done && end.current == s && (end.mode is Start || end.mode is Plain)
        }),
    decreases s.len(),
{
    if s.len() == 0 {
        assert(r.current =~= s);
    } else {
        let p = s.drop_last();
        assert(s.contains(s[s.len() - 1]));
        assert forall|c: char| p.contains(c) implies s.contains(c) by {
            let k = choose|k: int| 0 <= k < p.len() && p[k] == c;
            assert(s[k] == c);
        }
        lemma_read_plain(r, p);
        assert(p.push(s.last()) =~= s);
    }
}

/// A field as it stands in a record is read as the field, up to where it ends.
proof fn lemma_read_field(r: Reader, s: Seq<char>)
    requires
        r.mode is Start,
        r.current.len() == 0,
    ensures
        ({
            let end = r.read(csv_field(s));
            end.done == r.done && end.current == s && !(end.mode is Quoted)
        }),
{
    if needs_quotes(s) {
        let head = seq!['"'] + doubled(s);
        lemma_read_append(r, head, seq!['"']);
        lemma_read_append(r, seq!['"'], doubled(s));
        lemma_read_one(r, '"');
        let open = r.step('"');
        lemma_read_doubled(open, s);
        let inside = open.read(doubled(s));
        lemma_read_one(inside, '"');
        assert(open.current + s =~= s);
    } else {
        lemma_read_plain(r, s);
    }
}

proof fn lemma_read_joined(fields: Seq<Seq<char>>)
    requires
        fields.len() > 0,
    ensures
        ({
            let start = Reader {
                done: Seq::empty(),
                current: Seq::empty(),
                mode: ReadMode::Start,
            };
            let end = start.read(csv_joined(fields));
            end.done == fields.drop_last() && end.current == fields.last() && !(end.mode is Quoted)
        }),
    decreases fields.len(),
{
    let start = Reader { done: Seq::empty(), current: Seq::empty(), mode: ReadMode::Start };
    let texts = csv_fields(fields);
    if fields.len() == 1 {
        lemma_read_field(start, fields[0]);
        assert(fields.drop_last() =~= start.done);
    } else {
        let init = fields.drop_last();
        lemma_read_joined(init);
        assert(texts.drop_last() =~= csv_fields(init));
        let head = csv_joined(init);
        assert(csv_joined(fields) == head.push(',') + csv_field(fields.last()));
        lemma_read_append(start, head.push(','), csv_field(fields.last()));
        let end = start.read(head);
        assert(head.push(',').drop_last() =~= head);
        let next = end.step(',');
        assert(start.read(head.push(',')) == next);
        assert(init.drop_last().push(init.last()) =~= init);
        lemma_read_field(next, fields.last());
    }
}

/// Every record, whatever its fields hold, is read back as the fields it was written from.
pub proof fn law_csv_record_reads_back(fields: Seq<Seq<char>>)
    requires
        fields.len() > 0,
    ensures
        csv_values(csv_joined(fields)) == fields,
{
    lemma_read_joined(fields);
    assert(fields.drop_last().push(fields.last()) =~= fields);
}

// ---------------------------------------------------------------------------
// Field texts
// ---------------------------------------------------------------------------

/// The decimal numeral of a number, or nothing.
pub open spec fn opt_decimal(n: Option<u64>) -> Seq<char> {
    match n {
        Some(n) => decimal(n as nat),
        None => Seq::empty(),
    }
}

/// The decimal numeral of a signed number, or nothing.
pub open spec fn opt_signed(n: Option<i64>) -> Seq<char> {
    match n {
        Some(n) => signed_decimal(n as int),
        None => Seq::empty(),
    }
}

/// `true` or `false`.
pub open spec fn bool_text(b: bool) -> Seq<char> {
    if b {
        "true"@
    } else {
        "false"@
    }
}

pub fn opt_decimal_string(n: Option<u64>) -> (r: String)
    ensures
        r@ == opt_decimal(n),
{
    match n {
        Some(n) => decimal_string(n),
        None => empty_string(),
    }
}

pub fn opt_signed_string(n: Option<i64>) -> (r: String)
    ensures
        r@ == opt_signed(n),
{
    match n {
        Some(n) => signed_string(n),
        None => empty_string(),
    }
}

pub fn bool_string(b: bool) -> (r: String)
    ensures
        r@ == bool_text(b),
{
    if b {
        "true".to_owned()
    } else {
        "false".to_owned()
    }
}

pub fn empty_string() -> (r: String)
    ensures
        r@ == Seq::<char>::empty(),
{
    let r: String = String::new();
    proof {
        assert(r@ =~= Seq::<char>::empty());
    }
    r
}

} // verus!
