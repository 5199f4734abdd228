use vstd::prelude::*;

use crate::components::{Script, Tag};
use crate::split::{
    all_free_of, free_of, joined, lemma_joined_elements, lemma_nonempty_parts_id,
    lemma_split_free, lemma_split_joined, lemma_split_terminated, lemma_terminated_concat,
    lemma_split_concat, lemma_split_nonempty, lemma_terminated_elements, lemma_terminated_push, nonempty_parts, split_on, terminated,
};

verus! {

// A scene file holds one record per entity, records separated by a line `---`:
//
//     tag
//     x y width height rotation
//     r g b a
//     script            (only where the entity has one)
//     ---
//
// Fields are separated by whitespace. Groups of empty lines hold no record,
// and the last record needs no `---` after it. Numbers are kept as the text of
// their fields; the application turns them into floats and back.

/// The part of a record that a field belongs to, for error reports.
#[derive(Clone, Copy, Debug, PartialEq, Eq, Structural)]
pub enum SceneField {
    /// The record has fewer than three lines or more than four.
    Layout,
    Transform,
    Color,
}

/// Why a scene file was refused: the record (counted from 0, empty records not
/// counted) and the field at fault.
#[derive(Clone, Copy, Debug, PartialEq, Eq, Structural)]
pub struct SceneError {
    pub record: usize,
    pub field: SceneField,
}

/// One entity as the scene file stores it.
pub struct EntityRecord {
    pub tag: Tag,
    /// x, y, width, height and rotation, as written.
    pub transform: Vec<String>,
    /// red, green, blue and alpha, as written.
    pub color: Vec<String>,
    pub script: Option<Script>,
}

/// The content of an `EntityRecord`.
pub struct RecordView {
    pub tag: Seq<char>,
    pub transform: Seq<Seq<char>>,
    pub color: Seq<Seq<char>>,
    pub script: Option<Seq<char>>,
}

pub open spec fn strings_view(v: Seq<String>) -> Seq<Seq<char>> {
    v.map_values(|s: String| s@)
}

impl View for EntityRecord {
    type V = RecordView;

    open spec fn view(&self) -> RecordView {
        RecordView {
            tag: self.tag@,
            transform: strings_view(self.transform@),
            color: strings_view(self.color@),
            script: match self.script {
                Some(s) => Some(s@),
                None => None,
            },
        }
    }
}

pub open spec fn records_view(v: Seq<EntityRecord>) -> Seq<RecordView> {
    v.map_values(|r: EntityRecord| r@)
}

pub open spec fn separator_line() -> Seq<char> {
    seq!['-', '-', '-']
}

/// The lines of a text: the pieces between line breaks. As with `str::lines`,
/// a text that ends in a line break has no empty line after it.
pub open spec fn lines_of(text: Seq<char>) -> Seq<Seq<char>> {
    let pieces = split_on(text, '\n');
    if pieces.last().len() == 0 {
        pieces.drop_last()
    } else {
        pieces
    }
}

/// The groups of lines between separator lines.
pub open spec fn segments_of(text: Seq<char>) -> Seq<Seq<Seq<char>>> {
    split_on(lines_of(text), separator_line())
}

/// Whitespace, as `char::is_whitespace` defines it (Unicode White_Space).
pub open spec fn is_space_spec(c: char) -> bool {
    let u = c as u32;
    (0x9 <= u && u <= 0xd) || u == 0x20 || u == 0x85 || u == 0xa0 || u == 0x1680 || (0x2000 <= u
        && u <= 0x200a) || u == 0x2028 || u == 0x2029 || u == 0x202f || u == 0x205f || u == 0x3000
}

pub fn is_space(c: char) -> (r: bool)
    ensures
        r == is_space_spec(c),
{
    let u = c as u32;
    (0x9 <= u && u <= 0xd) || u == 0x20 || u == 0x85 || u == 0xa0 || u == 0x1680 || (0x2000 <= u
        && u <= 0x200a) || u == 0x2028 || u == 0x2029 || u == 0x202f || u == 0x205f || u == 0x3000
}

/// The line without its leading whitespace.
pub open spec fn trim_start(s: Seq<char>) -> Seq<char>
    decreases s.len(),
{
    if s.len() > 0 && is_space_spec(s[0]) {
        trim_start(s.drop_first())
    } else {
        s
    }
}

/// The line without its trailing whitespace.
pub open spec fn trim_end(s: Seq<char>) -> Seq<char>
    decreases s.len(),
{
    if s.len() > 0 && is_space_spec(s.last()) {
        trim_end(s.drop_last())
    } else {
        s
    }
}

/// The line without whitespace at either end, as `str::trim` gives it.
pub open spec fn trimmed(s: Seq<char>) -> Seq<char> {
    trim_end(trim_start(s))
}

/// The line with every whitespace character read as a space.
pub open spec fn spaces_as_blanks(line: Seq<char>) -> Seq<char> {
    line.map_values(|c: char| if is_space_spec(c) { ' ' } else { c })
}

/// The fields of a line: its runs of characters other than whitespace.
pub open spec fn words(line: Seq<char>) -> Seq<Seq<char>> {
    nonempty_parts(split_on(spaces_as_blanks(line), ' '))
}

/// A group of empty lines holds no record.
pub open spec fn is_blank(segment: Seq<Seq<char>>) -> bool {
    forall|i: int| 0 <= i < segment.len() ==> (#[trigger] segment[i]).len() == 0
}

pub open spec fn parse_record(segment: Seq<Seq<char>>, index: nat) -> Result<
    RecordView,
    SceneError,
> {
    if segment.len() < 3 || segment.len() > 4 {
        Err(SceneError { record: index as usize, field: SceneField::Layout })
    } else if words(segment[1]).len() != 5 {
        Err(SceneError { record: index as usize, field: SceneField::Transform })
    } else if words(segment[2]).len() != 4 {
        Err(SceneError { record: index as usize, field: SceneField::Color })
    } else {
        Ok(
            RecordView {
                tag: segment[0],
                transform: words(segment[1]),
                color: words(segment[2]),
                script: if segment.len() == 4 {
                    Some(trimmed(segment[3]))
                } else {
                    None
                },
            },
        )
    }
}

/// The records of a sequence of line groups, blank groups skipped; the first
/// malformed record, if any, is reported.
pub open spec fn parse_segments(segments: Seq<Seq<Seq<char>>>) -> Result<
    Seq<RecordView>,
    SceneError,
>
    decreases segments.len(),
{
    if segments.len() == 0 {
        Ok(Seq::empty())
    } else {
        match parse_segments(segments.drop_last()) {
            Err(e) => Err(e),
            Ok(records) => {
                if is_blank(segments.last()) {
                    Ok(records)
                } else {
                    match parse_record(segments.last(), records.len()) {
                        Ok(r) => Ok(records.push(r)),
                        Err(e) => Err(e),
                    }
                }
            },
        }
    }
}

/// What loading a scene text gives.
pub open spec fn parse_scene(text: Seq<char>) -> Result<Seq<RecordView>, SceneError> {
    parse_segments(segments_of(text))
}

/// The lines a record is written as, before its separator.
pub open spec fn record_lines(r: RecordView) -> Seq<Seq<char>> {
    let base = seq![r.tag, joined(r.transform, ' '), joined(r.color, ' ')];
    match r.script {
        Some(s) => base.push(s),
        None => base,
    }
}

/// The text a scene is saved as: each record's lines and a separator line,
/// every line ended by a line break.
pub open spec fn scene_text(records: Seq<RecordView>) -> Seq<char> {
    terminated(
        terminated(records.map_values(|r: RecordView| record_lines(r)), separator_line()),
        '\n',
    )
}

/// A number field reads back as itself: not empty, no whitespace (line breaks included).
pub open spec fn field_ok(f: Seq<char>) -> bool {
    f.len() > 0 && forall|i: int| 0 <= i < f.len() ==> !is_space_spec(#[trigger] f[i])
}

/// A tag or script line reads back as itself: no line break, and not a separator.
pub open spec fn line_ok(l: Seq<char>) -> bool {
    free_of(l, '\n') && l != separator_line()
}

/// A record that a save and a load give back unchanged.
pub open spec fn record_ok(r: RecordView) -> bool {
    &&& line_ok(r.tag)
    &&& r.transform.len() == 5
    &&& r.color.len() == 4
    &&& forall|i: int| 0 <= i < r.transform.len() ==> field_ok(#[trigger] r.transform[i])
    &&& forall|i: int| 0 <= i < r.color.len() ==> field_ok(#[trigger] r.color[i])
    &&& match r.script {
        Some(s) => line_ok(s) && (s.len() == 0 || (!is_space_spec(s[0]) && !is_space_spec(
            s.last(),
        ))),
        None => true,
    }
}

proof fn lemma_fields_read_back(fields: Seq<Seq<char>>)
    requires
        fields.len() >= 2,
        forall|i: int| 0 <= i < fields.len() ==> field_ok(#[trigger] fields[i]),
    ensures
        words(joined(fields, ' ')) == fields,
        line_ok(joined(fields, ' ')),
        joined(fields, ' ').len() > 0,
{
    assert(all_free_of(fields, ' ')) by {
        assert forall|i: int| 0 <= i < fields.len() implies free_of(#[trigger] fields[i], ' ') by {
            assert(field_ok(fields[i]));
            assert forall|k: int| 0 <= k < fields[i].len() implies fields[i][k] != ' ' by {
                assert(!is_space_spec(fields[i][k]));
            }
        }
    }
    lemma_split_joined(fields, ' ');
    assert forall|i: int| 0 <= i < fields.len() implies (#[trigger] fields[i]).len() > 0 by {
        assert(field_ok(fields[i]));
    }
    lemma_nonempty_parts_id(fields);
    let j = joined(fields, ' ');
    // Every character of the line is a space or a character of a field.
    let pred = |c: char| c == ' ' || !is_space_spec(c);
    assert forall|i: int, k: int| 0 <= i < fields.len() && 0 <= k < fields[i].len() implies pred(
        #[trigger] fields[i][k],
    ) by {
        assert(field_ok(fields[i]));
    }
    lemma_joined_elements(fields, ' ', pred);
    assert(spaces_as_blanks(j) =~= j) by {
        assert forall|k: int| 0 <= k < j.len() implies spaces_as_blanks(j)[k] == j[k] by {
            assert(pred(j[k]));
        }
    }
    assert(free_of(j, '\n')) by {
        assert forall|k: int| 0 <= k < j.len() implies j[k] != '\n' by {
            assert(pred(j[k]));
        }
    }
    // The first field is followed by a space, which a separator line lacks.
    let rest = fields.drop_last();
    let first_len = fields[0].len();
    assert(field_ok(fields[0]));
    assert(rest[0] == fields[0]);
    lemma_terminated_prefix(rest, ' ');
    let tr = terminated(rest, ' ');
    assert(j.len() > first_len);
    assert(j[first_len as int] == ' ') by {
        assert(j[first_len as int] == tr[first_len as int]);
        assert(tr.subrange(0, first_len as int + 1)[first_len as int] == ' ');
    }
    if j == separator_line() {
        assert(j[first_len as int] != ' ');
    }
}

proof fn lemma_terminated_prefix(parts: Seq<Seq<char>>, sep: char)
    requires
        parts.len() >= 1,
    ensures
        terminated(parts, sep).len() > parts[0].len(),
        terminated(parts, sep).subrange(0, parts[0].len() as int + 1) == parts[0].push(sep),
    decreases parts.len(),
{
    if parts.len() == 1 {
        assert(parts.drop_last() =~= Seq::<Seq<char>>::empty());
        assert(terminated(parts.drop_last(), sep) =~= Seq::<char>::empty());
        assert(terminated(parts, sep) =~= parts[0].push(sep));
        assert(terminated(parts, sep).subrange(0, parts[0].len() as int + 1) =~= parts[0].push(sep));
    } else {
        let rest = parts.drop_last();
        lemma_terminated_prefix(rest, sep);
        let t = terminated(parts, sep);
        let tr = terminated(rest, sep);
        assert(t.subrange(0, parts[0].len() as int + 1) =~= tr.subrange(0, parts[0].len() as int + 1));
    }
}

/// The lines of a well-formed record read back as that record.
proof fn lemma_record_reads_back(r: RecordView, index: nat)
    requires
        record_ok(r),
    ensures
        parse_record(record_lines(r), index) == Ok::<RecordView, SceneError>(r),
        !is_blank(record_lines(r)),
        all_free_of(record_lines(r), '\n'),
        free_of(record_lines(r), separator_line()),
{
    lemma_fields_read_back(r.transform);
    lemma_fields_read_back(r.color);
    let lines = record_lines(r);
    assert(lines[1] == joined(r.transform, ' '));
    assert(lines[2] == joined(r.color, ' '));
    if let Some(script) = r.script {
        assert(trim_start(script) == script);
        assert(trimmed(script) == script);
    }
    assert(parse_record(lines, index) == Ok::<RecordView, SceneError>(r));
    assert(lines[1].len() > 0);
    assert forall|i: int| 0 <= i < lines.len() implies free_of(#[trigger] lines[i], '\n') by {}
    assert forall|i: int| 0 <= i < lines.len() implies lines[i] != separator_line() by {}
}

proof fn lemma_records_read_back(records: Seq<RecordView>)
    requires
        forall|i: int| 0 <= i < records.len() ==> record_ok(#[trigger] records[i]),
    ensures
        parse_segments(records.map_values(|r: RecordView| record_lines(r))) == Ok::<
            Seq<RecordView>,
            SceneError,
        >(records),
    decreases records.len(),
{
    if records.len() > 0 {
        let rest = records.drop_last();
        let segments = records.map_values(|r: RecordView| record_lines(r));
        assert(segments.drop_last() =~= rest.map_values(|r: RecordView| record_lines(r)));
        assert forall|i: int| 0 <= i < rest.len() implies record_ok(#[trigger] rest[i]) by {
            assert(record_ok(records[i]));
        }
        lemma_records_read_back(rest);
        assert(record_ok(records[records.len() - 1]));
        lemma_record_reads_back(records.last(), rest.len());
        assert(segments.last() == record_lines(records.last()));
        assert(rest.push(records.last()) =~= records);
    } else {
        assert(records =~= Seq::<RecordView>::empty());
    }
}

/// Saving records that can be read back (five transform fields and four
/// colour fields, none empty or holding whitespace; tags and scripts on one
/// line and not a separator; scripts without whitespace at either end) and
/// loading the text gives the same records, field for field.
pub proof fn lemma_save_load_round_trip(records: Seq<RecordView>)
    requires
        forall|i: int| 0 <= i < records.len() ==> record_ok(#[trigger] records[i]),
    ensures
        parse_scene(scene_text(records)) == Ok::<Seq<RecordView>, SceneError>(records),
{
    let segments = records.map_values(|r: RecordView| record_lines(r));
    let lines = terminated(segments, separator_line());
    let text = scene_text(records);
    // No line holds a line break.
    let no_break = |l: Seq<char>| free_of(l, '\n');
    assert forall|i: int, j: int|
        0 <= i < segments.len() && 0 <= j < segments[i].len() implies no_break(
        #[trigger] segments[i][j],
    ) by {
        assert(record_ok(records[i]));
        lemma_record_reads_back(records[i], 0);
        assert(free_of(segments[i][j], '\n'));
    }
    assert(no_break(separator_line()));
    lemma_terminated_elements(segments, separator_line(), no_break);
    assert(all_free_of(lines, '\n')) by {
        assert forall|k: int| 0 <= k < lines.len() implies free_of(#[trigger] lines[k], '\n') by {
            assert(no_break(lines[k]));
        }
    }
    lemma_split_terminated(lines, Seq::empty(), '\n');
    assert(text + Seq::<char>::empty() =~= text);
    lemma_split_free(Seq::<char>::empty(), '\n');
    assert(split_on(text, '\n') == lines + seq![Seq::<char>::empty()]);
    assert((lines + seq![Seq::<char>::empty()]).drop_last() =~= lines);
    assert(lines_of(text) == lines);
    // No record line is a separator.
    assert(all_free_of(segments, separator_line())) by {
        assert forall|i: int| 0 <= i < segments.len() implies free_of(
            #[trigger] segments[i],
            separator_line(),
        ) by {
            assert(record_ok(records[i]));
            lemma_record_reads_back(records[i], 0);
        }
    }
    let last = Seq::<Seq<char>>::empty();
    lemma_split_terminated(segments, last, separator_line());
    assert(lines + last =~= lines);
    assert(segments + split_on(last, separator_line()) =~= segments.push(last));
    assert(segments_of(text) == segments.push(last));
    assert(segments.push(last).drop_last() =~= segments);
    assert(is_blank(last));
    lemma_records_read_back(records);
}

/// The text that one record adds to a scene.
pub open spec fn record_text(r: RecordView) -> Seq<char> {
    terminated(record_lines(r).push(separator_line()), '\n')
}

proof fn lemma_scene_text_push(records: Seq<RecordView>, r: RecordView)
    ensures
        scene_text(records.push(r)) == scene_text(records) + record_text(r),
{
    let f = |x: RecordView| record_lines(x);
    assert(records.push(r).map_values(f) =~= records.map_values(f).push(record_lines(r)));
    lemma_terminated_push(records.map_values(f), record_lines(r), separator_line());
    lemma_terminated_concat(
        terminated(records.map_values(f), separator_line()),
        record_lines(r).push(separator_line()),
        '\n',
    );
}

proof fn lemma_record_text(r: RecordView)
    ensures
        record_text(r) == r.tag.push('\n') + joined(r.transform, ' ').push('\n') + joined(
            r.color,
            ' ',
        ).push('\n') + match r.script {
            Some(s) => s.push('\n'),
            None => Seq::empty(),
        } + separator_line().push('\n'),
{
    let l0 = r.tag;
    let l1 = joined(r.transform, ' ');
    let l2 = joined(r.color, ' ');
    let sep = separator_line();
    let e = Seq::<Seq<char>>::empty();
    lemma_terminated_push(e, l0, '\n');
    assert(e.push(l0) =~= seq![l0]);
    assert(terminated(e, '\n') =~= Seq::<char>::empty());
    lemma_terminated_push(seq![l0], l1, '\n');
    assert(seq![l0].push(l1) =~= seq![l0, l1]);
    lemma_terminated_push(seq![l0, l1], l2, '\n');
    assert(seq![l0, l1].push(l2) =~= seq![l0, l1, l2]);
    let base = seq![l0, l1, l2];
    match r.script {
        Some(s) => {
            lemma_terminated_push(base, s, '\n');
            lemma_terminated_push(base.push(s), sep, '\n');
            assert(record_lines(r).push(sep) =~= base.push(s).push(sep));
        },
        None => {
            lemma_terminated_push(base, sep, '\n');
            assert(record_lines(r).push(sep) =~= base.push(sep));
        },
    }
    assert(record_text(r) =~= l0.push('\n') + l1.push('\n') + l2.push('\n') + match r.script {
        Some(s) => s.push('\n'),
        None => Seq::empty(),
    } + sep.push('\n'));
}

fn append_line(out: &mut String, line: &str)
    ensures
        final(out)@ == old(out)@ + line@.push('\n'),
{
    out.append(line);
    let nl = "\n";
    proof {
        reveal_strlit("\n");
    }
    out.append(nl);
    assert(final(out)@ =~= old(out)@ + line@.push('\n'));
}

/// Appends the fields with a space between each two, then a line break.
fn append_fields(out: &mut String, fields: &Vec<String>)
    ensures
        final(out)@ == old(out)@ + joined(strings_view(fields@), ' ').push('\n'),
{
    let ghost start = out@;
    let ghost all = strings_view(fields@);
    let mut i: usize = 0;
    while i < fields.len()
        invariant
            i <= fields@.len(),
            all == strings_view(fields@),
            out@ == start + joined(all.take(i as int), ' '),
        decreases fields@.len() - i,
    {
        let ghost before = out@;
        if i > 0 {
            let space = " ";
            proof {
                reveal_strlit(" ");
            }
            out.append(space);
        }
        out.append(fields[i].as_str());
        proof {
            let prefix = all.take(i as int);
            let next = all.take(i as int + 1);
            assert(next.drop_last() =~= prefix);
            assert(next.last() == fields@[i as int]@);
            if i > 0 {
                assert(prefix.drop_last() =~= all.take(i as int - 1));
                lemma_terminated_push(prefix.drop_last(), prefix.last(), ' ');
                assert(prefix.drop_last().push(prefix.last()) =~= prefix);
                assert(out@ =~= start + joined(next, ' '));
            } else {
                assert(prefix.len() == 0);
                assert(terminated(prefix, ' ') =~= Seq::<char>::empty());
                assert(out@ =~= start + joined(next, ' '));
            }
        }
        i = i + 1;
    }
    assert(all.take(fields@.len() as int) =~= all);
    let nl = "\n";
    proof {
        reveal_strlit("\n");
    }
    out.append(nl);
    assert(final(out)@ =~= old(out)@ + joined(all, ' ').push('\n'));
}

/// Writes the records as a scene text.
pub fn save_scene(records: &Vec<EntityRecord>) -> (r: String)
    ensures
        r@ == scene_text(records_view(records@)),
{
    let mut out = String::new();
    let ghost all = records_view(records@);
    let mut i: usize = 0;
    assert(all.take(0) =~= Seq::<RecordView>::empty());
    assert(scene_text(Seq::<RecordView>::empty()) =~= Seq::<char>::empty()) by {
        let f = |x: RecordView| record_lines(x);
        assert(Seq::<RecordView>::empty().map_values(f) =~= Seq::<Seq<Seq<char>>>::empty());
        assert(terminated(Seq::<Seq<Seq<char>>>::empty(), separator_line()) =~= Seq::<
            Seq<char>,
        >::empty());
    }
    while i < records.len()
        invariant
            i <= records@.len(),
            all == records_view(records@),
            out@ == scene_text(all.take(i as int)),
        decreases records@.len() - i,
    {
        let rec = &records[i];
        let ghost before = out@;
        append_line(&mut out, rec.tag.0.as_str());
        append_fields(&mut out, &rec.transform);
        append_fields(&mut out, &rec.color);
        match &rec.script {
            Some(s) => {
                append_line(&mut out, s.wasm.as_str());
            },
            None => {},
        }
        append_line(&mut out, "---");
        proof {
            reveal_strlit("---");
            assert("---"@ =~= separator_line());
            let r = all[i as int];
            assert(r == rec@);
            lemma_record_text(r);
            lemma_scene_text_push(all.take(i as int), r);
            assert(all.take(i as int).push(r) =~= all.take(i as int + 1));
            assert(out@ =~= before + record_text(r));
        }
        i = i + 1;
    }
    assert(all.take(records@.len() as int) =~= all);
    out
}

fn chars_of(text: &str) -> (r: Vec<char>)
    ensures
        r@ == text@,
{
    let mut out: Vec<char> = Vec::new();
    for c in it: text.chars()
        invariant
            out@ == it.seq().take(it.index()),
    {
        out.push(c);
        assert(out@ =~= it.seq().take(it.index() + 1));
    }
    out
}

pub open spec fn spans_ok(spans: Seq<(usize, usize)>, len: nat) -> bool {
    forall|i: int| 0 <= i < spans.len() ==> (#[trigger] spans[i]).0 <= spans[i].1 <= len
}

/// The pieces of `chars` that `spans` mark.
pub open spec fn spans_view(chars: Seq<char>, spans: Seq<(usize, usize)>) -> Seq<Seq<char>> {
    spans.map_values(|p: (usize, usize)| chars.subrange(p.0 as int, p.1 as int))
}

/// Finds where each piece of `chars` between line breaks starts and ends.
fn line_spans(chars: &Vec<char>) -> (r: Vec<(usize, usize)>)
    ensures
        spans_ok(r@, chars@.len()),
        spans_view(chars@, r@) == split_on(chars@, '\n'),
{
    let mut spans: Vec<(usize, usize)> = Vec::new();
    let mut start: usize = 0;
    let mut i: usize = 0;
    assert(chars@.take(0) =~= Seq::<char>::empty());
    assert(spans_view(chars@, spans@).push(chars@.subrange(0, 0)) =~= seq![Seq::<char>::empty()]);
    while i < chars.len()
        invariant
            start <= i <= chars@.len(),
            spans_ok(spans@, chars@.len()),
            spans_view(chars@, spans@).push(chars@.subrange(start as int, i as int)) == split_on(
                chars@.take(i as int),
                '\n',
            ),
        decreases chars@.len() - i,
    {
        let c = chars[i];
        let ghost prev_spans = spans@;
        assert(chars@.take(i as int + 1).drop_last() =~= chars@.take(i as int));
        if c == '\n' {
            spans.push((start, i));
            start = i + 1;
            assert(spans_view(chars@, spans@) =~= spans_view(chars@, prev_spans).push(
                chars@.subrange(spans@.last().0 as int, i as int),
            ));
            assert(chars@.subrange(start as int, i as int + 1) =~= Seq::<char>::empty());
        } else {
            assert(chars@.subrange(start as int, i as int + 1) =~= chars@.subrange(
                start as int,
                i as int,
            ).push(c));
        }
        i = i + 1;
        assert(spans_view(chars@, spans@).push(chars@.subrange(start as int, i as int))
            =~= split_on(chars@.take(i as int), '\n'));
    }
    let ghost prev_spans = spans@;
    spans.push((start, i));
    assert(chars@.take(i as int) =~= chars@);
    assert(spans_view(chars@, spans@) =~= spans_view(chars@, prev_spans).push(
        chars@.subrange(start as int, i as int),
    ));
    spans
}

/// Finds the fields of the line `chars[from..to]`.
fn word_spans(chars: &Vec<char>, from: usize, to: usize) -> (r: Vec<(usize, usize)>)
    requires
        from <= to <= chars@.len(),
    ensures
        spans_ok(r@, chars@.len()),
        spans_view(chars@, r@) == words(chars@.subrange(from as int, to as int)),
{
    let mut spans: Vec<(usize, usize)> = Vec::new();
    let ghost mut pieces: Seq<Seq<char>> = Seq::empty();
    let mut start: usize = from;
    let mut i: usize = from;
    assert(chars@.subrange(from as int, from as int) =~= Seq::<char>::empty());
    assert(spaces_as_blanks(chars@.subrange(from as int, from as int)) =~= Seq::<char>::empty());
    assert(pieces.push(chars@.subrange(from as int, from as int)) =~= seq![Seq::<char>::empty()]);
    assert(spans_view(chars@, spans@) =~= nonempty_parts(pieces));
    while i < to
        invariant
            from <= start <= i <= to <= chars@.len(),
            spans_ok(spans@, chars@.len()),
            spans_view(chars@, spans@) == nonempty_parts(pieces),
            pieces.push(chars@.subrange(start as int, i as int)) == split_on(
                spaces_as_blanks(chars@.subrange(from as int, i as int)),
                ' ',
            ),
        decreases to - i,
    {
        let c = chars[i];
        let ghost prev_spans = spans@;
        let ghost next = spaces_as_blanks(chars@.subrange(from as int, i as int + 1));
        assert(next.drop_last() =~= spaces_as_blanks(chars@.subrange(from as int, i as int)));
        assert(next.last() == if is_space_spec(c) { ' ' } else { c });
        if is_space(c) {
            let ghost piece = chars@.subrange(start as int, i as int);
            let ghost old_pieces = pieces;
            proof {
                pieces = pieces.push(piece);
                assert(pieces.drop_last() =~= old_pieces);
                assert(pieces.last() == piece);
            }
            if start < i {
                spans.push((start, i));
                assert(spans_view(chars@, spans@) =~= spans_view(chars@, prev_spans).push(piece));
            }
            start = i + 1;
            assert(chars@.subrange(start as int, i as int + 1) =~= Seq::<char>::empty());
        } else {
            assert(c != ' ');
            assert(chars@.subrange(start as int, i as int + 1) =~= chars@.subrange(
                start as int,
                i as int,
            ).push(c));
        }
        i = i + 1;
        assert(pieces.push(chars@.subrange(start as int, i as int)) =~= split_on(
            spaces_as_blanks(chars@.subrange(from as int, i as int)),
            ' ',
        ));
    }
    let ghost piece = chars@.subrange(start as int, i as int);
    let ghost all = pieces.push(piece);
    assert(all.drop_last() =~= pieces);
    let ghost prev_spans = spans@;
    if start < i {
        spans.push((start, i));
        assert(spans_view(chars@, spans@) =~= spans_view(chars@, prev_spans).push(piece));
    }
    spans
}

/// Once a record is refused, what follows it does not matter.
proof fn lemma_parse_error_kept(a: Seq<Seq<Seq<char>>>, b: Seq<Seq<Seq<char>>>)
    requires
        parse_segments(a) is Err,
    ensures
        parse_segments(a + b) == parse_segments(a),
    decreases b.len(),
{
    if b.len() == 0 {
        assert(a + b =~= a);
    } else {
        lemma_parse_error_kept(a, b.drop_last());
        assert((a + b).drop_last() =~= a + b.drop_last());
    }
}

fn text_of(text: &str, chars: &Vec<char>, span: (usize, usize)) -> (r: String)
    requires
        chars@ == text@,
        span.0 <= span.1 <= chars@.len(),
    ensures
        r@ == chars@.subrange(span.0 as int, span.1 as int),
{
    String::from_str(text.substring_char(span.0, span.1))
}

fn strings_of(text: &str, chars: &Vec<char>, spans: &Vec<(usize, usize)>) -> (r: Vec<String>)
    requires
        chars@ == text@,
        spans_ok(spans@, chars@.len()),
    ensures
        strings_view(r@) == spans_view(chars@, spans@),
{
    let mut out: Vec<String> = Vec::new();
    let mut i: usize = 0;
    while i < spans.len()
        invariant
            i <= spans@.len(),
            chars@ == text@,
            spans_ok(spans@, chars@.len()),
            strings_view(out@) == spans_view(chars@, spans@).take(i as int),
        decreases spans@.len() - i,
    {
        assert(spans@[i as int].0 <= spans@[i as int].1 <= chars@.len());
        let s = text_of(text, chars, spans[i]);
        let ghost before = out@;
        out.push(s);
        assert(strings_view(out@) =~= strings_view(before).push(s@));
        assert(spans_view(chars@, spans@).take(i as int + 1) =~= spans_view(chars@, spans@).take(
            i as int,
        ).push(s@));
        i = i + 1;
    }
    assert(spans_view(chars@, spans@).take(spans@.len() as int) =~= spans_view(chars@, spans@));
    out
}

fn is_separator(chars: &Vec<char>, span: (usize, usize)) -> (r: bool)
    requires
        span.0 <= span.1 <= chars@.len(),
    ensures
        r == (chars@.subrange(span.0 as int, span.1 as int) == separator_line()),
{
    let (a, b) = span;
    let mut r = false;
    if b - a == 3 {
        r = chars[a] == '-' && chars[a + 1] == '-' && chars[a + 2] == '-';
    }
    let ghost sub = chars@.subrange(a as int, b as int);
    if r {
        assert(sub[0] == '-' && sub[1] == '-' && sub[2] == '-');
        assert(sub =~= separator_line());
    } else {
        proof {
            let sl = separator_line();
            if sub == sl {
                assert(sl.len() == 3);
                assert(sl[0] == '-' && sl[1] == '-' && sl[2] == '-');
                assert(b - a == 3);
                assert(sub[0] == chars@[a as int]);
                assert(sub[1] == chars@[a + 1]);
                assert(sub[2] == chars@[a + 2]);
            }
        }
    }
    r
}

/// The part of `chars[span]` without whitespace at either end.
fn trim_span(chars: &Vec<char>, span: (usize, usize)) -> (r: (usize, usize))
    requires
        span.0 <= span.1 <= chars@.len(),
    ensures
        span.0 <= r.0 <= r.1 <= span.1,
        chars@.subrange(r.0 as int, r.1 as int) == trimmed(
            chars@.subrange(span.0 as int, span.1 as int),
        ),
{
    let (mut a, mut b) = span;
    while a < b && is_space(chars[a])
        invariant
            span.0 <= a <= b == span.1 <= chars@.len(),
            trim_start(chars@.subrange(a as int, b as int)) == trim_start(
                chars@.subrange(span.0 as int, span.1 as int),
            ),
        decreases b - a,
    {
        assert(chars@.subrange(a as int, b as int).drop_first() =~= chars@.subrange(
            a + 1,
            b as int,
        ));
        a = a + 1;
    }
    let ghost start = chars@.subrange(a as int, b as int);
    assert(trim_start(start) == start) by {
        if start.len() > 0 {
            assert(start[0] == chars@[a as int]);
        }
    }
    while b > a && is_space(chars[b - 1])
        invariant
            span.0 <= a <= b <= span.1 <= chars@.len(),
            trim_end(chars@.subrange(a as int, b as int)) == trim_end(start),
        decreases b - a,
    {
        assert(chars@.subrange(a as int, b as int).drop_last() =~= chars@.subrange(
            a as int,
            b - 1,
        ));
        b = b - 1;
    }
    let ghost end = chars@.subrange(a as int, b as int);
    assert(trim_end(end) == end) by {
        if end.len() > 0 {
            assert(end.last() == chars@[b - 1]);
        }
    }
    (a, b)
}

/// Whether lines `lo..hi` are all empty.
fn is_blank_span(chars: &Vec<char>, lines: &Vec<(usize, usize)>, lo: usize, hi: usize) -> (r: bool)
    requires
        lo <= hi <= lines@.len(),
        spans_ok(lines@, chars@.len()),
    ensures
        r == is_blank(spans_view(chars@, lines@).subrange(lo as int, hi as int)),
{
    let ghost seg = spans_view(chars@, lines@).subrange(lo as int, hi as int);
    let mut k: usize = lo;
    while k < hi
        invariant
            lo <= k <= hi <= lines@.len(),
            spans_ok(lines@, chars@.len()),
            seg == spans_view(chars@, lines@).subrange(lo as int, hi as int),
            forall|m: int| 0 <= m < k - lo ==> (#[trigger] seg[m]).len() == 0,
        decreases hi - k,
    {
        let (a, b) = lines[k];
        assert(lines@[k as int].0 <= lines@[k as int].1);
        assert(seg[k - lo] == chars@.subrange(a as int, b as int));
        if a != b {
            assert(seg[k - lo].len() != 0);
            return false;
        }
        k = k + 1;
    }
    true
}

/// Reads the record on lines `lo..hi`, the `index`-th record of the file.
fn read_record(
    text: &str,
    chars: &Vec<char>,
    lines: &Vec<(usize, usize)>,
    lo: usize,
    hi: usize,
    index: usize,
) -> (r: Result<EntityRecord, SceneError>)
    requires
        chars@ == text@,
        lo <= hi <= lines@.len(),
        spans_ok(lines@, chars@.len()),
    ensures
        ({
            let seg = spans_view(chars@, lines@).subrange(lo as int, hi as int);
            match r {
                Ok(e) => parse_record(seg, index as nat) == Ok::<RecordView, SceneError>(e@),
                Err(err) => parse_record(seg, index as nat) == Err::<RecordView, SceneError>(err),
            }
        }),
{
    let ghost seg = spans_view(chars@, lines@).subrange(lo as int, hi as int);
    let count = hi - lo;
    if count < 3 || count > 4 {
        return Err(SceneError { record: index, field: SceneField::Layout });
    }
    let tag_span = lines[lo];
    let transform_span = lines[lo + 1];
    let color_span = lines[lo + 2];
    assert(lines@[lo as int].0 <= lines@[lo as int].1);
    assert(lines@[lo + 1].0 <= lines@[lo + 1].1);
    assert(lines@[lo + 2].0 <= lines@[lo + 2].1);
    assert(seg[1] == chars@.subrange(transform_span.0 as int, transform_span.1 as int));
    assert(seg[2] == chars@.subrange(color_span.0 as int, color_span.1 as int));
    let transform_words = word_spans(chars, transform_span.0, transform_span.1);
    if transform_words.len() != 5 {
        return Err(SceneError { record: index, field: SceneField::Transform });
    }
    let color_words = word_spans(chars, color_span.0, color_span.1);
    if color_words.len() != 4 {
        return Err(SceneError { record: index, field: SceneField::Color });
    }
    let tag = text_of(text, chars, tag_span);
    let transform = strings_of(text, chars, &transform_words);
    let color = strings_of(text, chars, &color_words);
    let script = if count == 4 {
        let script_span = lines[lo + 3];
        assert(lines@[lo + 3].0 <= lines@[lo + 3].1);
        assert(seg[3] == chars@.subrange(script_span.0 as int, script_span.1 as int));
        let script_span = trim_span(chars, script_span);
        Some(Script { wasm: text_of(text, chars, script_span) })
    } else {
        None
    };
    let e = EntityRecord { tag: Tag(tag), transform, color, script };
    assert(seg[0] == chars@.subrange(tag_span.0 as int, tag_span.1 as int));
    assert(e@ == parse_record(seg, index as nat)->Ok_0);
    Ok(e)
}

/// Reads a scene text. Groups of empty lines are skipped; the first record
/// with the wrong number of lines or fields is reported, and nothing is kept.
pub fn load_scene(text: &str) -> (r: Result<Vec<EntityRecord>, SceneError>)
    ensures
        match r {
            Ok(v) => parse_scene(text@) == Ok::<Seq<RecordView>, SceneError>(records_view(v@)),
            Err(e) => parse_scene(text@) == Err::<Seq<RecordView>, SceneError>(e),
        },
{
    let chars = chars_of(text);
    let mut lines = line_spans(&chars);
    proof {
        lemma_split_nonempty(chars@, '\n');
    }
    let (last_start, last_end) = lines[lines.len() - 1];
    if last_start == last_end {
        let ghost before = lines@;
        lines.pop();
        assert(spans_view(chars@, lines@) =~= spans_view(chars@, before).drop_last());
    }
    let ghost ls = spans_view(chars@, lines@);
    assert(ls == lines_of(text@));
    let ghost sep = separator_line();
    let mut out: Vec<EntityRecord> = Vec::new();
    let ghost mut segs: Seq<Seq<Seq<char>>> = Seq::empty();
    let mut seg_start: usize = 0;
    let mut j: usize = 0;
    assert(ls.take(0) =~= Seq::<Seq<char>>::empty());
    assert(segs.push(ls.subrange(0, 0)) =~= seq![Seq::<Seq<char>>::empty()]);
    assert(records_view(out@) =~= Seq::<RecordView>::empty());
    loop
        invariant
            seg_start <= j <= lines@.len(),
            chars@ == text@,
            spans_ok(lines@, chars@.len()),
            ls == spans_view(chars@, lines@),
            ls == lines_of(text@),
            sep == separator_line(),
            segs.push(ls.subrange(seg_start as int, j as int)) == split_on(ls.take(j as int), sep),
            parse_segments(segs) == Ok::<Seq<RecordView>, SceneError>(records_view(out@)),
        decreases lines@.len() - j,
    {
        let at_end = j == lines.len();
        let closes = if at_end {
            true
        } else {
            assert(lines@[j as int].0 <= lines@[j as int].1);
            is_separator(&chars, lines[j])
        };
        if closes {
            let ghost seg = ls.subrange(seg_start as int, j as int);
            let ghost all = segs.push(seg);
            assert(all.drop_last() =~= segs);
            if !is_blank_span(&chars, &lines, seg_start, j) {
                let ghost before = out@;
                match read_record(text, &chars, &lines, seg_start, j, out.len()) {
                    Ok(e) => {
                        out.push(e);
                        assert(records_view(out@) =~= records_view(before).push(e@));
                    },
                    Err(err) => {
                        proof {
                            assert(parse_segments(all) == Err::<Seq<RecordView>, SceneError>(err));
                            if at_end {
                                assert(ls.take(j as int) =~= ls);
                            } else {
                                let rest = ls.subrange(j as int + 1, ls.len() as int);
                                assert(ls =~= ls.take(j as int) + seq![sep] + rest);
                                lemma_split_concat(ls.take(j as int), rest, sep);
                                lemma_parse_error_kept(all, split_on(rest, sep));
                            }
                        }
                        return Err(err);
                    },
                }
            }
            proof {
                segs = all;
            }
            if at_end {
                assert(ls.take(j as int) =~= ls);
                assert(split_on(ls, sep) == segs);
                return Ok(out);
            }
            assert(ls.take(j as int + 1).drop_last() =~= ls.take(j as int));
            assert(ls[j as int] == sep);
            seg_start = j + 1;
            j = j + 1;
            assert(ls.subrange(seg_start as int, j as int) =~= Seq::<Seq<char>>::empty());
        } else {
            assert(ls.take(j as int + 1).drop_last() =~= ls.take(j as int));
            assert(ls[j as int] != sep);
            assert(ls.subrange(seg_start as int, j as int + 1) =~= ls.subrange(
                seg_start as int,
                j as int,
            ).push(ls[j as int]));
            j = j + 1;
        }
    }
}

} // verus!
