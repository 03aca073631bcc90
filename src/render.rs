//! Rendering of the semantic model as Java source files.

use crate::builder::{
    decl_view, decls_view, field_type_view, field_view, file_decls, parse_proto_source, DeclV,
    FieldTypeV, FieldV,
};
use crate::model::{Enum, EnumValue, Field, FieldType, Message, ProtoModel, ScalarType, TypeDecl};
use crate::syntax::{opt_string_view, parse_spec, ParseError};
use crate::text::{concat, substring, to_chars};
use vstd::prelude::*;
use vstd::string::StrSliceExecFns;
use vstd::string::StringExecFns;

verus! {

broadcast use vstd::string::group_string_axioms;

/// What `char::to_uppercase` yields for `c`, collected into a string.
pub uninterp spec fn upper_of(c: char) -> Seq<char>;

/// Relies on `char::to_uppercase`: the upper-case form of one character,
/// which depends on that character alone.
#[verifier::external_body]
fn char_upper(c: char) -> (r: String)
    ensures
        r@ == upper_of(c),
{
    c.to_uppercase().collect::<String>()
}

/// Relies on `str::replace`: every `.` of `s` becomes `/`, the rest is kept.
#[verifier::external_body]
fn dots_to_slashes(s: &str) -> (r: String)
    ensures
        r@ == s@.map_values(|c: char| if c == '.' { '/' } else { c }),
{
    s.replace('.', "/")
}

/// The position of the last `c` in `s`, or -1 where there is none.
pub open spec fn last_index_of(s: Seq<char>, c: char) -> int
    decreases s.len(),
{
    if s.len() == 0 {
        -1
    } else if s.last() == c {
        s.len() - 1
    } else {
        last_index_of(s.drop_last(), c)
    }
}

/// The simple name of a possibly qualified name: what follows its last `.`.
pub open spec fn simple_name(n: Seq<char>) -> Seq<char> {
    n.subrange(last_index_of(n, '.') + 1, n.len() as int)
}

/// The first character upper-cased, the rest kept as it is.
pub open spec fn capitalized(s: Seq<char>) -> Seq<char> {
    if s.len() == 0 {
        Seq::empty()
    } else {
        upper_of(s[0]) + s.drop_first()
    }
}

pub open spec fn scalar_java(st: ScalarType) -> Seq<char> {
    match st {
        ScalarType::Double => "double"@,
        ScalarType::Float => "float"@,
        ScalarType::Int32 | ScalarType::Sint32 | ScalarType::Sfixed32 | ScalarType::Uint32
        | ScalarType::Fixed32 => "int"@,
        ScalarType::Int64 | ScalarType::Sint64 | ScalarType::Sfixed64 | ScalarType::Uint64
        | ScalarType::Fixed64 => "long"@,
        ScalarType::Bool => "boolean"@,
        ScalarType::String => "String"@,
        ScalarType::Bytes => "byte[]"@,
    }
}

/// The Java type of a field: the fixed scalar table, or the simple name of
/// the referenced type.
pub open spec fn java_type(ft: FieldTypeV) -> Seq<char> {
    match ft {
        FieldTypeV::Scalar(st) => scalar_java(st),
        FieldTypeV::Custom(n) => simple_name(n),
    }
}

pub open spec fn digit_char(d: nat) -> char {
    if d == 0 { '0' }
    else if d == 1 { '1' }
    else if d == 2 { '2' }
    else if d == 3 { '3' }
    else if d == 4 { '4' }
    else if d == 5 { '5' }
    else if d == 6 { '6' }
    else if d == 7 { '7' }
    else if d == 8 { '8' }
    else { '9' }
}

/// The decimal digits of `n`, without leading zeros.
pub open spec fn dec_nat(n: nat) -> Seq<char>
    decreases n,
{
    if n < 10 {
        seq![digit_char(n)]
    } else {
        dec_nat(n / 10) + seq![digit_char(n % 10)]
    }
}

/// The decimal form of `n`, with a leading `-` when it is negative.
pub open spec fn dec_int(n: int) -> Seq<char> {
    if n < 0 {
        seq!['-'] + dec_nat((-n) as nat)
    } else {
        dec_nat(n as nat)
    }
}

/// The package declaration that heads every file, if there is a package.
pub open spec fn package_line(pkg: Option<Seq<char>>) -> Seq<char> {
    match pkg {
        Some(p) => if p.len() > 0 {
            "package "@ + p + ";\n\n"@
        } else {
            Seq::empty()
        },
        None => Seq::empty(),
    }
}

/// The relative path of the file for a declaration named `name`.
pub open spec fn file_path(pkg: Option<Seq<char>>, name: Seq<char>) -> Seq<char> {
    let file = simple_name(name) + ".java"@;
    match pkg {
        Some(p) => if p.len() > 0 {
            p.map_values(|c: char| if c == '.' { '/' } else { c }) + "/"@ + file
        } else {
            file
        },
        None => file,
    }
}

pub open spec fn enum_line(v: (Seq<char>, i32), last: bool) -> Seq<char> {
    "    "@ + v.0 + "("@ + dec_int(v.1 as int) + ")"@ + (if last { ";"@ } else { ","@ }) + "\n"@
}

/// The member lines of the first `k` values; the last member of the whole
/// list ends with `;`, the others with `,`.
pub open spec fn enum_lines(vals: Seq<(Seq<char>, i32)>, k: nat) -> Seq<char>
    decreases k,
{
    if k == 0 {
        Seq::empty()
    } else {
        enum_lines(vals, (k - 1) as nat) + enum_line(vals[k - 1], k == vals.len())
    }
}

/// The Java source of an enum.
pub open spec fn enum_source(pkg: Option<Seq<char>>, name: Seq<char>, vals: Seq<(Seq<char>, i32)>) -> Seq<char> {
    let n = simple_name(name);
    package_line(pkg) + "public enum "@ + n + " {\n"@ + enum_lines(vals, vals.len())
        + "\n    private final int number;\n"@ + "    "@ + n
        + "(int number) { this.number = number; }\n"@
        + "    public int getNumber() { return number; }\n"@ + "}\n"@
}

pub open spec fn field_decl(f: FieldV) -> Seq<char> {
    "    private "@ + java_type(f.ty) + " "@ + f.name + ";\n"@
}

pub open spec fn field_decls(fs: Seq<FieldV>) -> Seq<char>
    decreases fs.len(),
{
    if fs.len() == 0 {
        Seq::empty()
    } else {
        field_decls(fs.drop_last()) + field_decl(fs.last())
    }
}

/// The getter and setter of a field; the field name is kept verbatim, with
/// only its first character upper-cased after `get` and `set`.
pub open spec fn accessors(f: FieldV) -> Seq<char> {
    let t = java_type(f.ty);
    let c = capitalized(f.name);
    "    public "@ + t + " get"@ + c + "() { return this."@ + f.name + "; }\n"@
        + "    public void set"@ + c + "("@ + t + " value) { this."@ + f.name + " = value; }\n\n"@
}

pub open spec fn all_accessors(fs: Seq<FieldV>) -> Seq<char>
    decreases fs.len(),
{
    if fs.len() == 0 {
        Seq::empty()
    } else {
        all_accessors(fs.drop_last()) + accessors(fs.last())
    }
}

/// The Java source of a message class.
pub open spec fn message_source(pkg: Option<Seq<char>>, name: Seq<char>, fs: Seq<FieldV>) -> Seq<char> {
    let n = simple_name(name);
    package_line(pkg) + "public class "@ + n + " {\n"@ + field_decls(fs) + "\n"@ + "    public "@
        + n + "() {}\n\n"@ + all_accessors(fs) + "}\n"@
}

pub open spec fn decl_name(d: DeclV) -> Seq<char> {
    match d {
        DeclV::Message { name, .. } => name,
        DeclV::Enum { name, .. } => name,
    }
}

pub open spec fn decl_source(pkg: Option<Seq<char>>, d: DeclV) -> Seq<char> {
    match d {
        DeclV::Message { name, fields } => message_source(pkg, name, fields),
        DeclV::Enum { name, values } => enum_source(pkg, name, values),
    }
}

/// The (path, source) pair of each declaration, in order.
pub open spec fn java_files(pkg: Option<Seq<char>>, decls: Seq<DeclV>) -> Seq<(Seq<char>, Seq<char>)> {
    Seq::new(
        decls.len(),
        |i: int| (file_path(pkg, decl_name(decls[i])), decl_source(pkg, decls[i])),
    )
}

/// The files of a model.
pub open spec fn model_files(model: ProtoModel) -> Seq<(Seq<char>, Seq<char>)> {
    java_files(opt_string_view(model.package), decls_view(model.types@))
}

pub open spec fn pairs_view(r: Seq<(String, String)>) -> Seq<(Seq<char>, Seq<char>)> {
    r.map_values(|p: (String, String)| (p.0@, p.1@))
}


proof fn lemma_last_index_bounds(s: Seq<char>, c: char)
    ensures
        -1 <= last_index_of(s, c) < s.len(),
    decreases s.len(),
{
    if s.len() > 0 {
        lemma_last_index_bounds(s.drop_last(), c);
    }
}

/// One past the position of the last `c` in `s`; zero where there is none.
fn after_last(s: &Vec<char>, c: char) -> (r: usize)
    ensures
        r == last_index_of(s@, c) + 1,
{
    let mut i: usize = s.len();
    assert(s@.subrange(0, i as int) =~= s@);
    while i > 0
        invariant
            i <= s@.len(),
            last_index_of(s@, c) == last_index_of(s@.subrange(0, i as int), c),
        decreases i,
    {
        let ghost p = s@.subrange(0, i as int);
        assert(p.drop_last() =~= s@.subrange(0, i - 1));
        if s[i - 1] == c {
            return i;
        }
        i = i - 1;
    }
    assert(s@.subrange(0, 0).len() == 0);
    0
}

/// The simple name of `n`: what follows its last `.`.
fn simple_name_of(n: &str) -> (r: String)
    ensures
        r@ == simple_name(n@),
{
    let cs = to_chars(n);
    let k = after_last(&cs, '.');
    proof {
        lemma_last_index_bounds(n@, '.');
    }
    substring(n, k, cs.len())
}

/// The Java type of a field.
fn java_type_for(ft: &FieldType) -> (r: String)
    ensures
        r@ == java_type(field_type_view(*ft)),
{
    match ft {
        FieldType::Scalar(st) => match st {
            ScalarType::Double => String::from_str("double"),
            ScalarType::Float => String::from_str("float"),
            ScalarType::Int32 | ScalarType::Sint32 | ScalarType::Sfixed32 | ScalarType::Uint32
            | ScalarType::Fixed32 => String::from_str("int"),
            ScalarType::Int64 | ScalarType::Sint64 | ScalarType::Sfixed64 | ScalarType::Uint64
            | ScalarType::Fixed64 => String::from_str("long"),
            ScalarType::Bool => String::from_str("boolean"),
            ScalarType::String => String::from_str("String"),
            ScalarType::Bytes => String::from_str("byte[]"),
        },
        FieldType::Custom(name) => simple_name_of(name.as_str()),
    }
}

/// `s` with its first character upper-cased.
fn capitalize(s: &str) -> (r: String)
    ensures
        r@ == capitalized(s@),
{
    let n = s.unicode_len();
    if n == 0 {
        return String::new();
    }
    let first = char_upper(s.get_char(0));
    let rest = s.substring_char(1, n);
    assert(rest@ =~= s@.drop_first());
    concat(first.as_str(), rest)
}

fn digit_str(d: u64) -> (r: &'static str)
    requires
        d < 10,
    ensures
        r@ == seq![digit_char(d as nat)],
{
    if d == 0 {
        proof { reveal_strlit("0"); }
        "0"
    } else if d == 1 {
        proof { reveal_strlit("1"); }
        "1"
    } else if d == 2 {
        proof { reveal_strlit("2"); }
        "2"
    } else if d == 3 {
        proof { reveal_strlit("3"); }
        "3"
    } else if d == 4 {
        proof { reveal_strlit("4"); }
        "4"
    } else if d == 5 {
        proof { reveal_strlit("5"); }
        "5"
    } else if d == 6 {
        proof { reveal_strlit("6"); }
        "6"
    } else if d == 7 {
        proof { reveal_strlit("7"); }
        "7"
    } else if d == 8 {
        proof { reveal_strlit("8"); }
        "8"
    } else {
        proof { reveal_strlit("9"); }
        "9"
    }
}

fn decimal_nat(n: u64) -> (r: String)
    ensures
        r@ == dec_nat(n as nat),
    decreases n,
{
    if n < 10 {
        String::from_str(digit_str(n))
    } else {
        let mut s = decimal_nat(n / 10);
        s.append(digit_str(n % 10));
        s
    }
}

/// The decimal form of `n`.
fn decimal(n: i32) -> (r: String)
    ensures
        r@ == dec_int(n as int),
{
    if n < 0 {
        let m: i64 = -(n as i64);
        let digits = decimal_nat(m as u64);
        proof { reveal_strlit("-"); }
        concat("-", digits.as_str())
    } else {
        decimal_nat(n as u64)
    }
}

/// The package declaration line, or nothing where there is no package.
fn render_package_line(pkg: &Option<String>) -> (r: String)
    ensures
        r@ == package_line(opt_string_view(*pkg)),
{
    match pkg {
        Some(p) => if p.unicode_len() > 0 {
            let mut s = String::from_str("package ");
            s.append(p.as_str());
            s.append(";\n\n");
            s
        } else {
            String::new()
        },
        None => String::new(),
    }
}

/// The relative path of the file for the declaration named `name`.
fn output_path(pkg: &Option<String>, name: &str) -> (r: String)
    ensures
        r@ == file_path(opt_string_view(*pkg), name@),
{
    let mut file = simple_name_of(name);
    file.append(".java");
    match pkg {
        Some(p) => if p.unicode_len() > 0 {
            let mut s = dots_to_slashes(p.as_str());
            s.append("/");
            s.append(file.as_str());
            s
        } else {
            file
        },
        None => file,
    }
}

/// The Java source of an enum.
fn render_enum(pkg: &Option<String>, e: &Enum) -> (r: String)
    ensures
        r@ == enum_source(opt_string_view(*pkg), e.name@, e.values@.map_values(|v: EnumValue| (v.name@, v.number))),
{
    let n = simple_name_of(e.name.as_str());
    let mut s = render_package_line(pkg);
    s.append("public enum ");
    s.append(n.as_str());
    s.append(" {\n");
    let ghost head = s@;
    let ghost vals = e.values@.map_values(|v: EnumValue| (v.name@, v.number));
    let mut i: usize = 0;
    while i < e.values.len()
        invariant
            i <= vals.len(),
            vals.len() == e.values@.len(),
            vals == e.values@.map_values(|v: EnumValue| (v.name@, v.number)),
            s@ == head + enum_lines(vals, i as nat),
        decreases vals.len() - i,
    {
        let v = &e.values[i];
        let ghost before = s@;
        s.append("    ");
        s.append(v.name.as_str());
        s.append("(");
        let d = decimal(v.number);
        s.append(d.as_str());
        s.append(")");
        if i + 1 == e.values.len() {
            s.append(";");
        } else {
            s.append(",");
        }
        s.append("\n");
        assert(s@ =~= before + enum_line(vals[i as int], i + 1 == vals.len()));
        assert(s@ =~= head + enum_lines(vals, (i + 1) as nat));
        i = i + 1;
    }
    s.append("\n    private final int number;\n");
    s.append("    ");
    s.append(n.as_str());
    s.append("(int number) { this.number = number; }\n");
    s.append("    public int getNumber() { return number; }\n");
    s.append("}\n");
    assert(s@ =~= enum_source(opt_string_view(*pkg), e.name@, vals));
    s
}

/// The getter and setter of one field.
fn render_accessors(f: &Field) -> (r: String)
    ensures
        r@ == accessors(field_view(*f)),
{
    let jt = java_type_for(&f.ty);
    let cap = capitalize(f.name.as_str());
    let mut s = String::from_str("    public ");
    s.append(jt.as_str());
    s.append(" get");
    s.append(cap.as_str());
    s.append("() { return this.");
    s.append(f.name.as_str());
    s.append("; }\n");
    s.append("    public void set");
    s.append(cap.as_str());
    s.append("(");
    s.append(jt.as_str());
    s.append(" value) { this.");
    s.append(f.name.as_str());
    s.append(" = value; }\n\n");
    assert(s@ =~= accessors(field_view(*f)));
    s
}

/// The Java source of a message class.
fn render_message_class(pkg: &Option<String>, m: &Message) -> (r: String)
    ensures
        r@ == message_source(opt_string_view(*pkg), m.name@, m.fields@.map_values(|f: Field| field_view(f))),
{
    let n = simple_name_of(m.name.as_str());
    let mut s = render_package_line(pkg);
    s.append("public class ");
    s.append(n.as_str());
    s.append(" {\n");
    let ghost head = s@;
    let ghost fs = m.fields@.map_values(|f: Field| field_view(f));
    let mut i: usize = 0;
    while i < m.fields.len()
        invariant
            i <= fs.len(),
            fs.len() == m.fields@.len(),
            fs == m.fields@.map_values(|f: Field| field_view(f)),
            s@ == head + field_decls(fs.subrange(0, i as int)),
        decreases fs.len() - i,
    {
        let f = &m.fields[i];
        let ghost before = s@;
        let jt = java_type_for(&f.ty);
        s.append("    private ");
        s.append(jt.as_str());
        s.append(" ");
        s.append(f.name.as_str());
        s.append(";\n");
        assert(fs.subrange(0, i + 1).drop_last() =~= fs.subrange(0, i as int));
        assert(s@ =~= before + field_decl(fs[i as int]));
        assert(s@ =~= head + field_decls(fs.subrange(0, i + 1)));
        i = i + 1;
    }
    assert(fs.subrange(0, fs.len() as int) =~= fs);
    s.append("\n");
    s.append("    public ");
    s.append(n.as_str());
    s.append("() {}\n\n");
    let ghost mid = s@;
    let mut j: usize = 0;
    while j < m.fields.len()
        invariant
            j <= fs.len(),
            fs.len() == m.fields@.len(),
            fs == m.fields@.map_values(|f: Field| field_view(f)),
            s@ == mid + all_accessors(fs.subrange(0, j as int)),
        decreases fs.len() - j,
    {
        let ghost before = s@;
        let acc = render_accessors(&m.fields[j]);
        s.append(acc.as_str());
        assert(fs.subrange(0, j + 1).drop_last() =~= fs.subrange(0, j as int));
        assert(s@ =~= before + accessors(fs[j as int]));
        assert(s@ =~= mid + all_accessors(fs.subrange(0, j + 1)));
        j = j + 1;
    }
    s.append("}\n");
    assert(s@ =~= message_source(opt_string_view(*pkg), m.name@, fs));
    s
}

/// Renders every declaration of the model as one Java file: its relative
/// path (package directories joined by `/`, then the simple name and
/// `.java`) and its source text, in the order of the declarations.
pub fn generate_java_from_model(model: &ProtoModel) -> (r: Vec<(String, String)>)
    ensures
        pairs_view(r@) == model_files(*model),
{
    let mut out: Vec<(String, String)> = Vec::new();
    let mut i: usize = 0;
    while i < model.types.len()
        invariant
            i <= model.types@.len(),
            out@.len() == i,
            forall|j: int|
                0 <= j < i ==> (#[trigger] out@[j]).0@ == file_path(
                    opt_string_view(model.package),
                    decl_name(decl_view(model.types@[j])),
                ) && out@[j].1@ == decl_source(opt_string_view(model.package), decl_view(model.types@[j])),
        decreases model.types@.len() - i,
    {
        let pair = match &model.types[i] {
            TypeDecl::Message(m) => (output_path(&model.package, m.name.as_str()), render_message_class(&model.package, m)),
            TypeDecl::Enum(e) => (output_path(&model.package, e.name.as_str()), render_enum(&model.package, e)),
        };
        out.push(pair);
        i = i + 1;
    }
    assert(pairs_view(out@) =~= model_files(*model));
    out
}

/// Why Java sources could not be generated.
#[derive(Debug, Clone, PartialEq)]
pub enum GenerateError {
    Parse(ParseError),
}

impl GenerateError {
    /// A readable description of the error.
    pub fn describe(&self) -> (r: String)
        ensures
            r@ == match self {
                GenerateError::Parse(e) => "parse error: "@ + e.describe_view(),
            },
    {
        match self {
            GenerateError::Parse(e) => {
                let d = e.describe();
                concat("parse error: ", d.as_str())
            },
        }
    }
}

/// Parses source text and renders every declaration of its model as one
/// Java file. Text that does not follow the grammar gives an error and no
/// file at all.
pub fn generate_java_from_proto(src: &str) -> (r: Result<Vec<(String, String)>, GenerateError>)
    ensures
        r matches Err(GenerateError::Parse(e)) ==> e is Grammar,
        src@.len() + 3 <= usize::MAX ==> (r is Ok <==> parse_spec(src@) is Ok),
        r matches Ok(files) ==> parse_spec(src@) matches Ok(f) && pairs_view(files@) == java_files(
            f.package,
            file_decls(f),
        ),
{
    match parse_proto_source(src) {
        Ok(model) => Ok(generate_java_from_model(&model)),
        Err(e) => Err(GenerateError::Parse(e)),
    }
}

/// Rendering is deterministic: any two results of rendering one model hold
/// the same paths and texts, in the same order.
pub proof fn rendering_is_deterministic(
    model: ProtoModel,
    first: Seq<(String, String)>,
    second: Seq<(String, String)>,
)
    requires
        pairs_view(first) == model_files(model),
        pairs_view(second) == model_files(model),
    ensures
        first.len() == second.len(),
        forall|i: int|
            0 <= i < first.len() ==> (#[trigger] first[i]).0@ == second[i].0@ && first[i].1@
                == second[i].1@,
{
    assert(pairs_view(first).len() == first.len());
    assert(pairs_view(second).len() == second.len());
    assert forall|i: int| 0 <= i < first.len() implies (#[trigger] first[i]).0@ == second[i].0@
        && first[i].1@ == second[i].1@ by {
        assert(pairs_view(first)[i] == (first[i].0@, first[i].1@));
        assert(pairs_view(second)[i] == (second[i].0@, second[i].1@));
    }
}

proof fn lemma_last_index_suffix(p: Seq<char>, t: Seq<char>, c: char)
    requires
        !t.contains(c),
    ensures
        last_index_of(p + t, c) == last_index_of(p, c),
    decreases t.len(),
{
    if t.len() > 0 {
        let t1 = t.drop_last();
        assert((p + t).drop_last() =~= p + t1);
        assert((p + t).last() == t[t.len() - 1]);
        assert(!t1.contains(c)) by {
            if t1.contains(c) {
                let k = choose|k: int| 0 <= k < t1.len() && t1[k] == c;
                assert(t[k] == c);
            }
        }
        lemma_last_index_suffix(p, t1, c);
    } else {
        assert(p + t =~= p);
    }
}

/// A declaration nested in `parent` is written to the file that a top-level
/// declaration of the same simple name would get: the same package
/// directory, with the simple name as the file name.
pub proof fn nested_file_sits_in_package_directory(pkg: Option<Seq<char>>, parent: Seq<char>, n: Seq<char>)
    requires
        !n.contains('.'),
    ensures
        simple_name(parent + "."@ + n) == n,
        file_path(pkg, parent + "."@ + n) == file_path(pkg, n),
{
    reveal_strlit(".");
    let p = parent + "."@;
    assert(p.last() == '.');
    assert(p.drop_last() =~= parent);
    lemma_last_index_suffix(p, n, '.');
    assert(last_index_of(p, '.') == parent.len());
    assert((p + n).subrange(parent.len() + 1 as int, (p + n).len() as int) =~= n);
    lemma_last_index_suffix(Seq::empty(), n, '.');
    assert(Seq::<char>::empty() + n =~= n);
    assert(n.subrange(0, n.len() as int) =~= n);
}

} // verus!
