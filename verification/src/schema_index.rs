//! The shape of the databases that a workspace talks to, read from dumps.
use vstd::prelude::*;

use crate::text::{
    append_chars, append_str, char_count, dec_int, dec_int_chars, drop_empty, from_chars, has_sub,
    lines_of, nonempty, occurs_at, opt_str, split_at_char, split_lines, split_on, str_eq, strs, texts, to_chars,
    trim_end_by, trim_end_chars, trim_start_by, trim_start_chars,
};

verus! {

/// Files whose names end in this are dumps.
pub const SCHEMA_DUMP_SUFFIX: &'static str = ".nibdex-schema.json";

/// One column, in its place.
#[derive(Debug, Clone, PartialEq)]
pub struct Column {
    pub name: String,
    pub data_type: String,
    pub nullable: bool,
    /// The declared width.
    pub max_len: Option<i64>,
    pub default: Option<String>,
}

/// One table, view or function.
#[derive(Debug, Clone)]
pub struct SchemaObject {
    pub schema: String,
    pub name: String,
    pub object_type: String,
    pub columns: Vec<Column>,
    /// The body of a view or function.
    pub definition: Option<String>,
}

/// A whole dump.
#[derive(Debug, Clone)]
pub struct SchemaDump {
    pub database: String,
    pub dialect: Option<String>,
    /// When the dump was taken; nothing is claimed where it does not say.
    pub generated_at: Option<i64>,
    pub objects: Vec<SchemaObject>,
}

/// One object as it is handed back.
#[derive(Debug, Clone, PartialEq)]
pub struct SchemaHit {
    pub database: String,
    pub schema: String,
    pub name: String,
    pub object_type: String,
    pub body: String,
}

/// The namespace of an object that does not say.
pub fn default_schema() -> (r: String)
    ensures
        r@ == "public"@,
{
    "public".to_owned()
}

/// The type of an object that does not say.
pub fn default_object_type() -> (r: String)
    ensures
        r@ == "table"@,
{
    "table".to_owned()
}

/// A file of this name is a dump.
pub open spec fn dump_name(name: Seq<char>) -> bool {
    let suffix = SCHEMA_DUMP_SUFFIX@;
    name.len() >= suffix.len() && name.skip(name.len() - suffix.len()) == suffix
}

/// Whether a file of this name is a dump.
pub fn is_schema_dump(name: &str) -> (b: bool)
    ensures
        b == dump_name(name@),
{
    let v = to_chars(name);
    let suffix = to_chars(SCHEMA_DUMP_SUFFIX);
    if v.len() < suffix.len() {
        return false;
    }
    let at: usize = v.len() - suffix.len();
    assert(v@.subrange(at as int, at + suffix@.len()) =~= v@.skip(at as int));
    crate::text::matches_at(&v, &suffix, at)
}

// ---- Rendering -----------------------------------------------------------------------------

/// The line of a column: name and type, the width where there is one, `NOT NULL` where it
/// holds, and the default where there is one.
pub open spec fn column_line(c: Column) -> Seq<char> {
    "  "@ + c.name@ + " "@ + c.data_type@ + (match c.max_len {
        Some(n) => "("@ + dec_int(n as int) + ")"@,
        None => Seq::empty(),
    }) + (if c.nullable {
        Seq::empty()
    } else {
        " NOT NULL"@
    }) + (match c.default {
        Some(d) => " DEFAULT "@ + d@,
        None => Seq::empty(),
    }) + "\n"@
}

pub open spec fn column_lines(cs: Seq<Column>) -> Seq<char>
    decreases cs.len(),
{
    if cs.len() == 0 {
        Seq::empty()
    } else {
        column_lines(cs.drop_last()) + column_line(cs.last())
    }
}

/// The lines of a definition, indented.
pub open spec fn indented(lines: Seq<Seq<char>>) -> Seq<char>
    decreases lines.len(),
{
    if lines.len() == 0 {
        Seq::empty()
    } else {
        indented(lines.drop_last()) + "    "@ + lines.last() + "\n"@
    }
}

/// The text of an object: its qualified name and type, its columns, and its definition.
pub open spec fn object_text(db: Seq<char>, o: SchemaObject) -> Seq<char> {
    db + "."@ + o.schema@ + "."@ + o.name@ + " ("@ + o.object_type@ + ")\n"@ + column_lines(
        o.columns@,
    ) + (match o.definition {
        Some(d) => "  definition:\n"@ + indented(lines_of(d@)),
        None => Seq::empty(),
    })
}

fn put_column(out: &mut Vec<char>, c: &Column)
    ensures
        final(out)@ == old(out)@ + column_line(*c),
{
    let ghost start = out@;
    append_str(out, "  ");
    append_str(out, c.name.as_str());
    append_str(out, " ");
    append_str(out, c.data_type.as_str());
    let ghost a = "  "@ + c.name@ + " "@ + c.data_type@;
    assert(out@ =~= start + a);
    let ghost width = match c.max_len {
        Some(n) => "("@ + dec_int(n as int) + ")"@,
        None => Seq::empty(),
    };
    if let Some(n) = c.max_len {
        append_str(out, "(");
        append_chars(out, &dec_int_chars(n));
        append_str(out, ")");
    }
    assert(out@ =~= start + (a + width));
    let ghost null = if c.nullable {
        Seq::empty()
    } else {
        " NOT NULL"@
    };
    if !c.nullable {
        append_str(out, " NOT NULL");
    }
    assert(out@ =~= start + (a + width + null));
    let ghost def = match &c.default {
        Some(d) => " DEFAULT "@ + d@,
        None => Seq::empty(),
    };
    if let Some(d) = &c.default {
        append_str(out, " DEFAULT ");
        append_str(out, d.as_str());
    }
    assert(out@ =~= start + (a + width + null + def));
    append_str(out, "\n");
    assert(out@ =~= start + column_line(*c));
}

fn put_definition(out: &mut Vec<char>, d: &str)
    ensures
        final(out)@ == old(out)@ + ("  definition:\n"@ + indented(lines_of(d@))),
{
    let ghost start = out@;
    append_str(out, "  definition:\n");
    let lines = split_lines(d);
    let ghost all = strs(lines@);
    let ghost head = start + "  definition:\n"@;
    assert(all.take(0) =~= Seq::empty());
    assert(out@ =~= head + indented(all.take(0)));
    for i in 0..lines.len()
        invariant
            all == strs(lines@),
            out@ == head + indented(all.take(i as int)),
    {
        assert(all.take(i + 1).drop_last() =~= all.take(i as int));
        assert(all[i as int] == lines@[i as int]@);
        append_str(out, "    ");
        append_str(out, lines[i].as_str());
        append_str(out, "\n");
        assert(out@ =~= head + indented(all.take(i + 1)));
    }
    assert(all.take(all.len() as int) =~= all);
    assert(out@ =~= start + ("  definition:\n"@ + indented(all)));
}

/// Renders an object as the text that is read and searched.
pub fn render_object(db: &str, o: &SchemaObject) -> (r: String)
    ensures
        r@ == object_text(db@, *o),
{
    let mut out = to_chars(db);
    append_str(&mut out, ".");
    append_str(&mut out, o.schema.as_str());
    append_str(&mut out, ".");
    append_str(&mut out, o.name.as_str());
    append_str(&mut out, " (");
    append_str(&mut out, o.object_type.as_str());
    append_str(&mut out, ")\n");
    let ghost head = out@;
    assert(o.columns@.take(0) =~= Seq::empty());
    assert(out@ =~= head + column_lines(o.columns@.take(0)));
    for i in 0..o.columns.len()
        invariant
            out@ == head + column_lines(o.columns@.take(i as int)),
    {
        assert(o.columns@.take(i + 1).drop_last() =~= o.columns@.take(i as int));
        put_column(&mut out, &o.columns[i]);
        assert(out@ =~= head + column_lines(o.columns@.take(i + 1)));
    }
    assert(o.columns@.take(o.columns@.len() as int) =~= o.columns@);
    let ghost before = out@;
    if let Some(d) = &o.definition {
        put_definition(&mut out, d.as_str());
    }
    assert(out@ =~= object_text(db@, *o));
    from_chars(&out)
}

/// Text in the middle of a text stands in it.
proof fn lemma_inside(before: Seq<char>, inner: Seq<char>, after: Seq<char>)
    ensures
        has_sub(before + inner + after, inner),
{
    let all = before + inner + after;
    assert(all.subrange(before.len() as int, (before.len() + inner.len()) as int) =~= inner);
    assert(occurs_at(all, inner, before.len() as int));
}

proof fn lemma_inside_of_inside(
    before: Seq<char>,
    inner: Seq<char>,
    after: Seq<char>,
    pat: Seq<char>,
)
    requires
        has_sub(inner, pat),
    ensures
        has_sub(before + inner + after, pat),
{
    let i = choose|i: int| occurs_at(inner, pat, i);
    let all = before + inner + after;
    let at = before.len() + i;
    assert(all.subrange(at, at + pat.len()) =~= inner.subrange(i, i + pat.len()));
    assert(occurs_at(all, pat, at));
}

proof fn lemma_column_stands(cs: Seq<Column>, i: int)
    requires
        0 <= i < cs.len(),
    ensures
        has_sub(column_lines(cs), "  "@ + cs[i].name@ + " "@ + cs[i].data_type@),
    decreases cs.len(),
{
    let pat = "  "@ + cs[i].name@ + " "@ + cs[i].data_type@;
    let init = column_lines(cs.drop_last());
    let line = column_line(cs.last());
    if i == cs.len() - 1 {
        let rest = line.skip(pat.len() as int);
        assert(line =~= pat + rest);
        lemma_inside(init, pat, rest);
        assert(init + pat + rest =~= column_lines(cs));
    } else {
        assert(cs.drop_last()[i] == cs[i]);
        lemma_column_stands(cs.drop_last(), i);
        lemma_inside_of_inside(Seq::empty(), init, line, pat);
        assert(Seq::<char>::empty() + init + line =~= column_lines(cs));
    }
}

/// The text of an object begins with its qualified name and its type, and holds the name
/// and type of every column, so that a search for any of them reaches it.
pub proof fn law_an_object_is_found_by_its_name_and_columns(db: Seq<char>, o: SchemaObject)
    ensures
        (db + "."@ + o.schema@ + "."@ + o.name@ + " ("@ + o.object_type@ + ")\n"@).is_prefix_of(
            object_text(db, o),
        ),
        forall|i: int|
            0 <= i < o.columns@.len() ==> has_sub(
                object_text(db, o),
                "  "@ + (#[trigger] o.columns@[i]).name@ + " "@ + o.columns@[i].data_type@,
            ),
{
    let head = db + "."@ + o.schema@ + "."@ + o.name@ + " ("@ + o.object_type@ + ")\n"@;
    let all = object_text(db, o);
    let columns = column_lines(o.columns@);
    let tail = all.skip((head.len() + columns.len()) as int);
    assert(all =~= head + columns + tail);
    assert(head =~= all.subrange(0, head.len() as int));
    assert forall|i: int| 0 <= i < o.columns@.len() implies has_sub(
        all,
        "  "@ + (#[trigger] o.columns@[i]).name@ + " "@ + o.columns@[i].data_type@,
    ) by {
        lemma_column_stands(o.columns@, i);
        lemma_inside_of_inside(
            head,
            columns,
            tail,
            "  "@ + o.columns@[i].name@ + " "@ + o.columns@[i].data_type@,
        );
    }
}

/// The line of a column says everything that is known of it, in order: name and type; right
/// behind the type the width in brackets, exactly where there is one; ` NOT NULL` exactly
/// where it holds; and at the end the default, exactly where there is one, whatever the
/// width and whether the column may be null.
pub proof fn law_a_column_line_says_everything(c: Column)
    ensures
        ({
            let line = column_line(c);
            let head = "  "@ + c.name@ + " "@ + c.data_type@;
            let width = match c.max_len {
                Some(n) => "("@ + dec_int(n as int) + ")"@,
                None => Seq::empty(),
            };
            let constraint = if c.nullable {
                Seq::empty()
            } else {
                " NOT NULL"@
            };
            &&& (head + width).is_prefix_of(line)
            &&& line.len() > 0 && line.last() == '\n'
            &&& c.default is None ==> line == head + width + constraint + seq!['\n']
            &&& c.default matches Some(d) ==> line == head + width + constraint + " DEFAULT "@ + d@
                + seq!['\n']
        }),
{
    reveal_strlit("\n");
    let line = column_line(c);
    let head = "  "@ + c.name@ + " "@ + c.data_type@;
    let width = match c.max_len {
        Some(n) => "("@ + dec_int(n as int) + ")"@,
        None => Seq::empty(),
    };
    let constraint = if c.nullable {
        Seq::empty()
    } else {
        " NOT NULL"@
    };
    assert(line =~= head + width + constraint + (match c.default {
        Some(d) => " DEFAULT "@ + d@,
        None => Seq::empty(),
    }) + seq!['\n']);
    if let Some(d) = c.default {
        assert(line =~= head + width + constraint + " DEFAULT "@ + d@ + seq!['\n']);
    } else {
        assert(line =~= head + width + constraint + seq!['\n']);
    }
    assert(head + width =~= line.subrange(0, (head + width).len() as int));
}

/// An object is rendered piece by piece: alone it is its qualified name and type; a further
/// column adds its line behind the others; and a definition adds its heading and its lines,
/// each indented, behind the columns.
pub proof fn law_an_object_is_rendered_piece_by_piece(
    db: Seq<char>,
    bare: SchemaObject,
    grown: SchemaObject,
    defined: SchemaObject,
    c: Column,
)
    requires
        bare.definition is None,
        grown.schema@ == bare.schema@ && grown.name@ == bare.name@ && grown.object_type@
            == bare.object_type@ && grown.definition is None,
        grown.columns@ == bare.columns@.push(c),
        defined.schema@ == bare.schema@ && defined.name@ == bare.name@ && defined.object_type@
            == bare.object_type@ && defined.columns@ == bare.columns@,
        defined.definition is Some,
    ensures
        bare.columns@.len() == 0 ==> object_text(db, bare) == db + seq!['.'] + bare.schema@ + seq![
            '.',
        ] + bare.name@ + " ("@ + bare.object_type@ + ")\n"@,
        object_text(db, grown) == object_text(db, bare) + column_line(c),
        object_text(db, defined) == object_text(db, bare) + "  definition:\n"@ + indented(
            lines_of(defined.definition->0@),
        ),
{
    reveal_strlit(".");
    assert(grown.columns@.drop_last() =~= bare.columns@);
    assert(object_text(db, grown) =~= object_text(db, bare) + column_line(c));
    assert(object_text(db, defined) =~= object_text(db, bare) + "  definition:\n"@ + indented(
        lines_of(defined.definition->0@),
    ));
    if bare.columns@.len() == 0 {
        assert("."@ =~= seq!['.']);
        assert(object_text(db, bare) =~= db + seq!['.'] + bare.schema@ + seq!['.'] + bare.name@
            + " ("@ + bare.object_type@ + ")\n"@);
    }
}

/// The lines of a definition keep their order, each behind four spaces and before an end.
pub proof fn law_definitions_are_indented_line_by_line(lines: Seq<Seq<char>>, line: Seq<char>)
    ensures
        indented(Seq::<Seq<char>>::empty()) == Seq::<char>::empty(),
        indented(lines.push(line)) == indented(lines) + seq![' ', ' ', ' ', ' '] + line + seq![
            '\n',
        ],
{
    reveal_strlit("    ");
    reveal_strlit("\n");
    assert(lines.push(line).drop_last() =~= lines);
    assert("    "@ =~= seq![' ', ' ', ' ', ' ']);
    assert("\n"@ =~= seq!['\n']);
}

/// Every column has its line in the text of its object, with all that is known of it.
pub proof fn law_every_column_has_its_line(db: Seq<char>, o: SchemaObject, i: int)
    requires
        0 <= i < o.columns@.len(),
    ensures
        has_sub(object_text(db, o), column_line(o.columns@[i])),
{
    let head = db + "."@ + o.schema@ + "."@ + o.name@ + " ("@ + o.object_type@ + ")\n"@;
    let all = object_text(db, o);
    let columns = column_lines(o.columns@);
    let tail = all.skip((head.len() + columns.len()) as int);
    assert(all =~= head + columns + tail);
    lemma_whole_column_stands(o.columns@, i);
    lemma_inside_of_inside(head, columns, tail, column_line(o.columns@[i]));
}

proof fn lemma_whole_column_stands(cs: Seq<Column>, i: int)
    requires
        0 <= i < cs.len(),
    ensures
        has_sub(column_lines(cs), column_line(cs[i])),
    decreases cs.len(),
{
    let init = column_lines(cs.drop_last());
    let line = column_line(cs.last());
    if i == cs.len() - 1 {
        lemma_inside(init, line, Seq::empty());
        assert(init + line + Seq::<char>::empty() =~= column_lines(cs));
    } else {
        assert(cs.drop_last()[i] == cs[i]);
        lemma_whole_column_stands(cs.drop_last(), i);
        lemma_inside_of_inside(Seq::empty(), init, line, column_line(cs[i]));
        assert(Seq::<char>::empty() + init + line =~= column_lines(cs));
    }
}

/// Only the quotes and brackets of the dialects are taken off a name, and only at its ends.
pub proof fn law_only_quotes_are_taken_off_a_name(name: Seq<char>)
    requires
        name.len() > 0,
        name[0] != '"' && name[0] != '[' && name[0] != ']' && name[0] != '`',
        name.last() != '"' && name.last() != '[' && name.last() != ']' && name.last() != '`',
    ensures
        bare_name(name) == name,
        bare_name(seq!['['] + name + seq![']']) == name,
        bare_name(seq!['"'] + name + seq!['"']) == name,
        bare_name(seq!['`'] + name + seq!['`']) == name,
{
    lemma_unquoted('[', name, ']');
    lemma_unquoted('"', name, '"');
    lemma_unquoted('`', name, '`');
}

proof fn lemma_unquoted(a: char, name: Seq<char>, b: char)
    requires
        name.len() > 0,
        name_quote()(a),
        name_quote()(b),
        !name_quote()(name[0]),
        !name_quote()(name.last()),
    ensures
        bare_name(name) == name,
        bare_name(seq![a] + name + seq![b]) == name,
{
    let p = name_quote();
    let q = seq![a] + name + seq![b];
    assert(q.drop_first() =~= name + seq![b]);
    assert((name + seq![b])[0] == name[0]);
    assert(trim_start_by(name + seq![b], p) == name + seq![b]);
    assert(trim_start_by(q, p) == name + seq![b]);
    assert((name + seq![b]).drop_last() =~= name);
    assert((name + seq![b]).last() == b);
    assert(trim_end_by(name, p) == name);
}

// ---- Names ---------------------------------------------------------------------------------

/// The punctuation that dialects put around names.
pub open spec fn name_quote() -> spec_fn(char) -> bool {
    |c: char| c == '"' || c == '[' || c == ']' || c == '`'
}

fn is_name_quote(c: char) -> (b: bool)
    ensures
        b == (c == '"' || c == '[' || c == ']' || c == '`'),
{
    c == '"' || c == '[' || c == ']' || c == '`'
}

/// A name without the punctuation around it.
pub open spec fn bare_name(s: Seq<char>) -> Seq<char> {
    trim_end_by(trim_start_by(s, name_quote()), name_quote())
}

/// The parts of a qualified name.
pub open spec fn name_parts(raw: Seq<char>) -> Seq<Seq<char>> {
    nonempty(split_on(raw, |c: char| c == '.'))
}

/// The namespace of a qualified name: the part before the last.
pub open spec fn namespace(raw: Seq<char>) -> Option<Seq<char>> {
    let parts = name_parts(raw);
    if parts.len() >= 2 {
        Some(bare_name(parts[parts.len() - 2]))
    } else {
        None
    }
}

/// The object of a qualified name: the last part.
pub open spec fn object_name(raw: Seq<char>) -> Seq<char> {
    let parts = name_parts(raw);
    if parts.len() >= 1 {
        bare_name(parts[parts.len() - 1])
    } else {
        Seq::empty()
    }
}

fn clean_name(s: &[char]) -> (r: String)
    ensures
        r@ == bare_name(s@),
{
    let t = trim_start_chars(s, is_name_quote, Ghost(name_quote()));
    from_chars(&trim_end_chars(&t, is_name_quote, Ghost(name_quote())))
}

/// Splits a qualified name into its namespace, if it has one, and its object.
pub fn split_qualified(raw: &str) -> (r: (Option<String>, String))
    ensures
        opt_str(r.0) == namespace(raw@),
        r.1@ == object_name(raw@),
{
    let parts = drop_empty(split_at_char(&to_chars(raw), '.'));
    let ghost all = texts(parts@);
    let n: usize = parts.len();
    if n == 0 {
        let none = String::new();
        assert(none@ =~= Seq::empty());
        return (None, none);
    }
    assert(all[n - 1] == parts@[n - 1]@);
    let name = clean_name(parts[n - 1].as_slice());
    if n == 1 {
        (None, name)
    } else {
        assert(all[n - 2] == parts@[n - 2]@);
        (Some(clean_name(parts[n - 2].as_slice())), name)
    }
}

/// How an object is looked up.
#[derive(Debug)]
pub enum Lookup {
    /// There is no name: nothing is found.
    Nothing,
    ByName(String),
    /// The namespace is honoured where the caller gave one.
    Qualified { schema: String, name: String },
}

/// Plans the lookup of a name.
pub fn plan_lookup(raw: &str) -> (r: Lookup)
    ensures
        match r {
            Lookup::Nothing => object_name(raw@).len() == 0,
            Lookup::ByName(n) => n@ == object_name(raw@) && n@.len() > 0 && namespace(
                raw@,
            ) is None,
            Lookup::Qualified { schema, name } => name@ == object_name(raw@) && name@.len() > 0
                && namespace(raw@) == Some(schema@),
        },
{
    let (schema, name) = split_qualified(raw);
    if char_count(name.as_str()) == 0 {
        return Lookup::Nothing;
    }
    match schema {
        Some(s) => Lookup::Qualified { schema: s, name },
        None => Lookup::ByName(name),
    }
}

/// However far a name is qualified to the left, its last part is the object, and the part
/// right before it the namespace: `bids`, `sales.bids` and `db.sales.bids` name one object,
/// and the last two one namespace.
pub proof fn law_the_last_part_is_the_object(
    left: Seq<char>,
    schema: Seq<char>,
    name: Seq<char>,
)
    requires
        schema.len() > 0,
        name.len() > 0,
        forall|i: int| 0 <= i < schema.len() ==> #[trigger] schema[i] != '.',
        forall|i: int| 0 <= i < name.len() ==> #[trigger] name[i] != '.',
    ensures
        object_name(name) == bare_name(name),
        namespace(name) is None,
        object_name(schema + seq!['.'] + name) == bare_name(name),
        namespace(schema + seq!['.'] + name) == Some(bare_name(schema)),
        object_name(left + seq!['.'] + schema + seq!['.'] + name) == bare_name(name),
        namespace(left + seq!['.'] + schema + seq!['.'] + name) == Some(bare_name(schema)),
{
    let p = |c: char| c == '.';
    let none = Seq::<Seq<char>>::empty();
    assert forall|i: int| 0 <= i < name.len() implies !p(#[trigger] name[i]) by {}
    assert forall|i: int| 0 <= i < schema.len() implies !p(#[trigger] schema[i]) by {}
    crate::text::lemma_split_single(name, p);
    crate::text::lemma_split_single(schema, p);
    assert(nonempty(none) =~= none);
    assert(seq![name].drop_last() =~= none);
    assert(name_parts(name) =~= seq![name]);
    assert(seq![schema].drop_last() =~= none);
    assert(nonempty(seq![schema]) =~= seq![schema]);
    let short = schema.push('.') + name;
    assert(schema + seq!['.'] + name =~= short);
    crate::text::lemma_split_append(schema, '.', name, p);
    assert(seq![schema].push(name).drop_last() =~= seq![schema]);
    assert(name_parts(short) =~= seq![schema].push(name));
    let middle = left.push('.') + schema;
    let long = middle.push('.') + name;
    assert(left + seq!['.'] + schema + seq!['.'] + name =~= long);
    crate::text::lemma_split_append(left, '.', schema, p);
    crate::text::lemma_split_append(middle, '.', name, p);
    let parts = split_on(left, p);
    assert(parts.push(schema).drop_last() =~= parts);
    assert(parts.push(schema).push(name).drop_last() =~= parts.push(schema));
    assert(nonempty(parts.push(schema)) == nonempty(parts).push(schema));
    assert(nonempty(parts.push(schema).push(name)) == nonempty(parts).push(schema).push(name));
    assert(name_parts(long) == nonempty(parts).push(schema).push(name));
}

// ---- Producing a dump ----------------------------------------------------------------------

/// The query of a dialect that produces a dump.
pub fn dump_query(dialect: &str) -> (r: Option<&'static str>)
    ensures
        match r {
            Some(q) => {
                ||| (dialect@ == "postgres"@ || dialect@ == "postgresql"@ || dialect@ == "pg"@) && q@
                    == POSTGRES_DUMP_QUERY@
                ||| (dialect@ == "mssql"@ || dialect@ == "sqlserver"@ || dialect@ == "sql-server"@)
                    && q@ == MSSQL_DUMP_QUERY@
            },
            None => dialect@ != "postgres"@ && dialect@ != "postgresql"@ && dialect@ != "pg"@
                && dialect@ != "mssql"@ && dialect@ != "sqlserver"@ && dialect@ != "sql-server"@,
        },
{
    if str_eq(dialect, "postgres") || str_eq(dialect, "postgresql") || str_eq(dialect, "pg") {
        Some(POSTGRES_DUMP_QUERY)
    } else if str_eq(dialect, "mssql") || str_eq(dialect, "sqlserver") || str_eq(
        dialect,
        "sql-server",
    ) {
        Some(MSSQL_DUMP_QUERY)
    } else {
        None
    }
}

/// PostgreSQL. Views are dumped with their definitions: a predicate inside a view is
/// invisible to a search of the source tree.
pub const POSTGRES_DUMP_QUERY: &'static str = r#"-- nibdex schema dump (PostgreSQL)
--   psql -At -d YOURDB -f this.sql > db.nibdex-schema.json
SELECT json_build_object(
  'database', current_database(),
  'dialect', 'postgres',
  'generated_at', extract(epoch FROM now())::bigint,
  'objects', COALESCE((
    SELECT json_agg(o ORDER BY o->>'schema', o->>'name')
    FROM (
      SELECT json_build_object(
        'schema', c.table_schema,
        'name', c.table_name,
        'type', CASE t.table_type WHEN 'VIEW' THEN 'view' ELSE 'table' END,
        'columns', COALESCE((
          SELECT json_agg(json_build_object(
                   'name', k.column_name,
                   'type', k.data_type,
                   'nullable', k.is_nullable = 'YES',
                   'max_len', k.character_maximum_length,
                   'default', k.column_default
                 ) ORDER BY k.ordinal_position)
          FROM information_schema.columns k
          WHERE k.table_schema = c.table_schema AND k.table_name = c.table_name
        ), '[]'::json),
        'definition', v.view_definition
      ) AS o
      FROM (SELECT DISTINCT table_schema, table_name FROM information_schema.columns) c
      JOIN information_schema.tables t
        ON t.table_schema = c.table_schema AND t.table_name = c.table_name
      LEFT JOIN information_schema.views v
        ON v.table_schema = c.table_schema AND v.table_name = c.table_name
      WHERE c.table_schema NOT IN ('pg_catalog', 'information_schema')
    ) s
  ), '[]'::json)
);
"#;

/// SQL Server. Widths are decided on the base system type, and the widths of Unicode
/// strings are halved, since the server reports bytes.
pub const MSSQL_DUMP_QUERY: &'static str = r#"-- nibdex schema dump (SQL Server)
--   sqlcmd -S SERVER -U USER -d YOURDB -y 0 -i this.sql | tr -d '\n' > db.nibdex-schema.json
SET NOCOUNT ON;
SELECT
  DB_NAME() AS [database],
  'mssql'   AS [dialect],
  DATEDIFF_BIG(SECOND, '1970-01-01', GETUTCDATE()) AS [generated_at],
  (SELECT
      s.name  AS [schema],
      o.name  AS [name],
      CASE o.type WHEN 'V' THEN 'view' ELSE 'table' END AS [type],
      m.definition AS [definition],
      (SELECT c.name                AS [name],
              ty.name               AS [type],
              CAST(c.is_nullable AS bit) AS [nullable],
              -- sys.columns.max_length is STORAGE BYTES, and it is populated for
              -- every type: -1 means MAX, 8 means a bigint occupies 8 bytes. Read
              -- as a width it renders id bigint(8), and doubles every Unicode
              -- string -- nvarchar(50) stores 100 bytes, so it printed
              -- nvarchar(100). A width is the one fact a caller acts on without
              -- checking, so a wrong one is worse than none.
              --
              -- Decided on the BASE SYSTEM type (st), not the declared one (ty).
              -- An alias type carries its own name: sysname is nvarchar(128) and
              -- reports max_length 256, so a name-matched rule leaves it blank --
              -- which is what testing against two real databases caught, and it
              -- is the same for any CREATE TYPE ... FROM nvarchar(n). Resolving
              -- to the base type handles every alias at once instead of listing
              -- them. The DECLARED name is still what gets reported as the type.
              CASE
                WHEN c.max_length = -1                        THEN NULL
                WHEN st.name IN ('nvarchar', 'nchar')         THEN c.max_length / 2
                WHEN st.name IN ('varchar', 'char',
                                 'varbinary', 'binary')       THEN c.max_length
                ELSE NULL
              END AS [max_len],
              OBJECT_DEFINITION(c.default_object_id) AS [default]
       FROM sys.columns c
       JOIN sys.types ty ON ty.user_type_id = c.user_type_id
       JOIN sys.types st ON st.user_type_id = ty.system_type_id AND st.is_user_defined = 0
       WHERE c.object_id = o.object_id
       ORDER BY c.column_id
       FOR JSON PATH) AS [columns]
   FROM sys.objects o
   JOIN sys.schemas s ON s.schema_id = o.schema_id
   LEFT JOIN sys.sql_modules m ON m.object_id = o.object_id
   WHERE o.type IN ('U', 'V')
   ORDER BY s.name, o.name
   FOR JSON PATH) AS [objects]
FOR JSON PATH, WITHOUT_ARRAY_WRAPPER;
"#;

/// A file is a dump exactly where its name is something and `.nibdex-schema.json`.
pub proof fn law_which_files_are_dumps(name: Seq<char>, stem: Seq<char>)
    ensures
        dump_name(stem + ".nibdex-schema.json"@),
        dump_name(name) ==> name == name.take(name.len() - 19) + ".nibdex-schema.json"@,
{
    reveal_strlit(".nibdex-schema.json");
    let suffix = ".nibdex-schema.json"@;
    assert(suffix.len() == 19);
    assert((stem + suffix).skip(stem.len() as int) =~= suffix);
    if dump_name(name) {
        assert(name =~= name.take(name.len() - 19) + name.skip(name.len() - 19));
    }
}

/// The parts of a name: a full stop parts them, and nothing else does; parts of nothing do not
/// count. The last part names the object and the one before it the namespace.
pub proof fn law_full_stops_part_a_name(a: Seq<char>, b: Seq<char>)
    ensures
        name_parts(a.push('.') + b) == name_parts(a) + name_parts(b),
        (forall|i: int| 0 <= i < a.len() ==> #[trigger] a[i] != '.') ==> name_parts(a)
            == if a.len() == 0 {
            Seq::<Seq<char>>::empty()
        } else {
            seq![a]
        },
        name_parts(a).len() == 0 ==> object_name(a).len() == 0,
        name_parts(a).len() > 0 ==> object_name(a) == bare_name(name_parts(a).last()),
        name_parts(a).len() < 2 ==> namespace(a) is None,
        name_parts(a).len() >= 2 ==> namespace(a) == Some(
            bare_name(name_parts(a)[name_parts(a).len() - 2]),
        ),
{
    let p = |c: char| c == '.';
    crate::text_laws::law_a_separator_parts_a_text(a, '.', b, p);
    crate::text_laws::lemma_nonempty_concat(split_on(a, p), split_on(b, p));
    if forall|i: int| 0 <= i < a.len() ==> #[trigger] a[i] != '.' {
        assert forall|i: int| 0 <= i < a.len() implies !p(#[trigger] a[i]) by {}
        crate::text::lemma_split_single(a, p);
        let none = Seq::<Seq<char>>::empty();
        assert(seq![a].drop_last() =~= none);
        assert(nonempty(none) =~= none);
        assert(name_parts(a) =~= if a.len() == 0 {
            none
        } else {
            seq![a]
        });
    }
}

/// What is left of a name without its quotes is what stands between the quotes and brackets at
/// its ends: all of these are taken off, and nothing else is.
pub proof fn law_a_bare_name_is_the_core(name: Seq<char>, before: Seq<char>, behind: Seq<char>)
    requires
        forall|i: int|
            0 <= i < before.len() ==> (#[trigger] before[i] == '"' || before[i] == '[' || before[i]
                == ']' || before[i] == '`'),
        forall|i: int|
            0 <= i < behind.len() ==> (#[trigger] behind[i] == '"' || behind[i] == '[' || behind[i]
                == ']' || behind[i] == '`'),
        name.len() > 0 ==> name[0] != '"' && name[0] != '[' && name[0] != ']' && name[0] != '`',
        name.len() > 0 ==> name.last() != '"' && name.last() != '[' && name.last() != ']'
            && name.last() != '`',
    ensures
        bare_name(before + name + behind) == name,
{
    let p = name_quote();
    if name.len() == 0 {
        let all = before + behind;
        assert(before + name + behind =~= all);
        assert(all + Seq::<char>::empty() =~= all);
        assert forall|i: int| 0 <= i < all.len() implies p(#[trigger] all[i]) by {
            if i < before.len() {
                assert(all[i] == before[i]);
            } else {
                assert(all[i] == behind[i - before.len()]);
            }
        }
        lemma_quotes_in_front(all, Seq::empty());
        assert(bare_name(all) =~= name);
    } else {
        let rest = name + behind;
        assert(before + name + behind =~= before + rest);
        assert(rest[0] == name[0]);
        assert forall|i: int| 0 <= i < before.len() implies p(#[trigger] before[i]) by {
            assert(before[i] == '"' || before[i] == '[' || before[i] == ']' || before[i] == '`');
        }
        assert forall|i: int| 0 <= i < behind.len() implies p(#[trigger] behind[i]) by {
            assert(behind[i] == '"' || behind[i] == '[' || behind[i] == ']' || behind[i] == '`');
        }
        lemma_quotes_in_front(before, rest);
        lemma_quotes_at_the_end(name, behind);
    }
}

proof fn lemma_quotes_in_front(front: Seq<char>, rest: Seq<char>)
    requires
        rest.len() == 0 || !name_quote()(rest[0]),
        forall|i: int| 0 <= i < front.len() ==> name_quote()(#[trigger] front[i]),
    ensures
        trim_start_by(front + rest, name_quote()) == rest,
    decreases front.len(),
{
    if front.len() == 0 {
        assert(front + rest =~= rest);
    } else {
        let tail = front.drop_first();
        assert((front + rest)[0] == front[0]);
        assert((front + rest).drop_first() =~= tail + rest);
        assert forall|i: int| 0 <= i < tail.len() implies name_quote()(#[trigger] tail[i]) by {
            assert(name_quote()(front[i + 1]));
        }
        lemma_quotes_in_front(tail, rest);
    }
}

proof fn lemma_quotes_at_the_end(name: Seq<char>, ending: Seq<char>)
    requires
        name.len() == 0 || !name_quote()(name.last()),
        forall|i: int| 0 <= i < ending.len() ==> name_quote()(#[trigger] ending[i]),
    ensures
        trim_end_by(name + ending, name_quote()) == name,
    decreases ending.len(),
{
    if ending.len() == 0 {
        assert(name + ending =~= name);
    } else {
        let init = ending.drop_last();
        assert((name + ending).drop_last() =~= name + init);
        assert((name + ending).last() == ending[ending.len() - 1]);
        assert forall|i: int| 0 <= i < init.len() implies name_quote()(#[trigger] init[i]) by {
            assert(name_quote()(ending[i]));
        }
        lemma_quotes_at_the_end(name, init);
    }
}

} // verus!
