use vstd::prelude::*;
use crate::catalogue::views;
use crate::model::{find_key, lookup, BucketsView, CategoryValues, VarsView, VariableValues};
use crate::project::{Project, ProjectView};
use crate::text::{is_blank, is_blank_str};
use crate::yaml_utils::{
    escape_yaml_value, escaped, expand, needs_indent_indicator, needs_indent_indicator_exec,
    same_text,
};

verus! {

/// A variable that a category defines.
#[derive(Debug, Clone, PartialEq, Eq)]
pub struct ProjectCategoryVariable {
    pub id: String,
    pub name: String,
    pub description: Option<String>,
    pub default_value: Option<String>,
    pub required: Option<bool>,
}

/// A category definition: a named set of variables, and optionally the rule
/// file that backs it.
#[derive(Debug, Clone, PartialEq, Eq)]
pub struct ProjectCategory {
    pub id: String,
    pub name: String,
    pub description: Option<String>,
    pub icon: Option<String>,
    pub color: Option<String>,
    pub is_default: Option<bool>,
    pub file_name: Option<String>,
    pub variable_definitions: Vec<ProjectCategoryVariable>,
}

/// Position of the first category definition with the id, or -1.
pub open spec fn category_index(cats: Seq<ProjectCategory>, id: Seq<char>) -> int
    decreases cats.len(),
{
    if cats.len() == 0 {
        -1
    } else {
        let j = category_index(cats.drop_last(), id);
        if j >= 0 {
            j
        } else if cats.last().id@ == id {
            cats.len() - 1
        } else {
            -1
        }
    }
}

pub open spec fn block_margin() -> Seq<char> {
    "\n        "@
}

/// The block header's indicators for a value: the indentation when a line
/// starts with a space, and strip chomping unless the value ends with a line
/// break, so that no line break is added on reading.
pub open spec fn block_indicators(value: Seq<char>) -> Seq<char> {
    (if needs_indent_indicator(value) {
        seq!['2']
    } else {
        seq![]
    }) + (if value.last() == '\n' {
        seq![]
    } else {
        seq!['-']
    })
}

/// Text between double quotes: backslashes, quotes and line breaks escaped.
pub open spec fn double_quoted_body(s: Seq<char>) -> Seq<char> {
    expand(
        expand(expand(expand(s, '\\', seq!['\\', '\\']), '"', seq!['\\', '"']), '\n', seq!['\\', 'n']),
        '\r',
        seq!['\\', 'r'],
    )
}

/// A scalar that stays on one line: the escaped text, or a double-quoted
/// scalar with escapes when the text holds a line break.
pub open spec fn inline_scalar(s: Seq<char>) -> Seq<char> {
    if s.contains('\n') || s.contains('\r') {
        seq!['"'] + double_quoted_body(s) + seq!['"']
    } else {
        escaped(s)
    }
}

/// One `echo` variable entry binding `name` to `value`.
pub open spec fn entry_text(name: Seq<char>, value: Seq<char>) -> Seq<char> {
    if value.contains('\n') {
        "\n  - name: "@ + name + "\n    type: echo\n    params:\n      echo: |"@ + block_indicators(
            value,
        ) + block_margin() + expand(value, '\n', block_margin())
    } else {
        "\n  - name: "@ + name + "\n    type: echo\n    params:\n      echo: "@ + escaped(value)
    }
}

/// The entry of one variable definition: only when a non-blank value is stored.
pub open spec fn definition_text(def: ProjectCategoryVariable, values: VarsView) -> Seq<char> {
    match lookup(values, def.id@) {
        Some(v) => if is_blank(v) {
            seq![]
        } else {
            entry_text(def.name@, v)
        },
        None => seq![],
    }
}

/// The entries of the definitions in declaration order.
pub open spec fn definitions_text(defs: Seq<ProjectCategoryVariable>, values: VarsView) -> Seq<char>
    decreases defs.len(),
{
    if defs.len() == 0 {
        seq![]
    } else {
        definitions_text(defs.drop_last(), values) + definition_text(defs.last(), values)
    }
}

/// The entries that one bucket of values contributes: none when no category
/// definition has its id.
pub open spec fn bucket_text(bucket: (Seq<char>, VarsView), cats: Seq<ProjectCategory>) -> Seq<char> {
    let c = category_index(cats, bucket.0);
    if c >= 0 {
        definitions_text(cats[c].variable_definitions@, bucket.1)
    } else {
        seq![]
    }
}

pub open spec fn buckets_text(buckets: BucketsView, cats: Seq<ProjectCategory>) -> Seq<char>
    decreases buckets.len(),
{
    if buckets.len() == 0 {
        seq![]
    } else {
        buckets_text(buckets.drop_last(), cats) + bucket_text(buckets.last(), cats)
    }
}

/// The active-variables document of a project.
pub open spec fn active_vars_text(p: ProjectView, cats: Seq<ProjectCategory>) -> Seq<char> {
    "# Generated active project variables for: "@ + inline_scalar(p.name) + "\nglobal_vars:"@
        + buckets_text(p.category_values, cats) + "\n"@
}

/// One choice of the selector.
pub open spec fn choice_text(p: ProjectView) -> Seq<char> {
    "          - label: "@ + inline_scalar(p.name) + "\n            id: \""@ + double_quoted_body(p.id)
        + "\"\n"@
}

pub open spec fn choices_text(ps: Seq<ProjectView>) -> Seq<char>
    decreases ps.len(),
{
    if ps.len() == 0 {
        seq![]
    } else {
        choices_text(ps.drop_last()) + choice_text(ps.last())
    }
}

pub open spec fn selector_header() -> Seq<char> {
    "# Generated project selector for quick switching\nmatches:\n  - trigger: \":project\"\n    replace: \"{{project_choice}}\"\n    vars:\n      - name: project_choice\n        type: choice\n        params:\n"@
}

/// The selector document: every project in catalogue order.
pub open spec fn selector_text(ps: Seq<ProjectView>) -> Seq<char> {
    if ps.len() == 0 {
        selector_header() + "          values: []\n"@
    } else {
        selector_header() + "          values:\n"@ + choices_text(ps)
    }
}

pub open spec fn cleared_text() -> Seq<char> {
    "# No active project - project variables will not be available\nglobal_vars: []\n"@
}

/// Whether the YAML reader accepts the text as a document.
pub uninterp spec fn yaml_accepts(s: Seq<char>) -> bool;

/// Relies on `serde_yaml::from_str::<serde_yaml::Value>`: whether the text
/// parses as YAML, which depends on the text alone; the reader's message when
/// it does not.
#[verifier::external_body]
fn check_yaml(s: &str) -> (r: Option<String>)
    ensures
        r is None <==> yaml_accepts(s@),
{
    match serde_yaml::from_str::<serde_yaml::Value>(s) {
        Ok(_) => None,
        Err(e) => Some(e.to_string()),
    }
}

fn append_double_quoted_body(out: &mut String, s: &str)
    ensures
        final(out)@ == old(out)@ + double_quoted_body(s@),
{
    proof {
        reveal_strlit("\\\\");
        reveal_strlit("\\\"");
        reveal_strlit("\\n");
        reveal_strlit("\\r");
        assert("\\\\"@ =~= seq!['\\', '\\']);
        assert("\\\""@ =~= seq!['\\', '"']);
        assert("\\n"@ =~= seq!['\\', 'n']);
        assert("\\r"@ =~= seq!['\\', 'r']);
    }
    let mut a = String::new();
    crate::yaml_utils::append_expanded(&mut a, s, '\\', "\\\\");
    assert(a@ =~= expand(s@, '\\', seq!['\\', '\\']));
    let mut b = String::new();
    crate::yaml_utils::append_expanded(&mut b, a.as_str(), '"', "\\\"");
    assert(b@ =~= expand(a@, '"', seq!['\\', '"']));
    let mut c = String::new();
    crate::yaml_utils::append_expanded(&mut c, b.as_str(), '\n', "\\n");
    assert(c@ =~= expand(b@, '\n', seq!['\\', 'n']));
    crate::yaml_utils::append_expanded(out, c.as_str(), '\r', "\\r");
}

/// The scalar written for a text that must stay on one line.
fn inline_scalar_exec(s: &str) -> (r: String)
    ensures
        r@ == inline_scalar(s@),
{
    if crate::yaml_utils::has_char(s, '\n') || crate::yaml_utils::has_char(s, '\r') {
        proof {
            reveal_strlit("\"");
            assert("\""@ =~= seq!['"']);
        }
        let mut out = String::from_str("\"");
        append_double_quoted_body(&mut out, s);
        out.append("\"");
        out
    } else {
        escape_yaml_value(s)
    }
}

fn category_position(cats: &Vec<ProjectCategory>, id: &str) -> (r: Option<usize>)
    ensures
        match r {
            Some(i) => i < cats@.len() && i as int == category_index(cats@, id@),
            None => category_index(cats@, id@) == -1,
        },
{
    let n = cats.len();
    let mut i: usize = 0;
    while i < n
        invariant
            n == cats@.len(),
            i <= n,
            category_index(cats@.subrange(0, i as int), id@) == -1,
        decreases n - i,
    {
        assert(cats@.subrange(0, i + 1).drop_last() =~= cats@.subrange(0, i as int));
        if same_text(cats[i].id.as_str(), id) {
            proof {
                lemma_category_index_prefix(cats@, id@, i as int + 1);
            }
            return Some(i);
        }
        i = i + 1;
    }
    assert(cats@.subrange(0, n as int) =~= cats@);
    None
}

proof fn lemma_category_index_prefix(cats: Seq<ProjectCategory>, id: Seq<char>, m: int)
    requires
        0 <= m <= cats.len(),
        category_index(cats.subrange(0, m), id) >= 0,
    ensures
        category_index(cats, id) == category_index(cats.subrange(0, m), id),
    decreases cats.len() - m,
{
    if m < cats.len() {
        assert(cats.subrange(0, m + 1).drop_last() =~= cats.subrange(0, m));
        lemma_category_index_prefix(cats, id, m + 1);
    } else {
        assert(cats.subrange(0, m) =~= cats);
    }
}

fn append_entry(out: &mut String, name: &str, value: &str)
    ensures
        final(out)@ == old(out)@ + entry_text(name@, value@),
{
    out.append("\n  - name: ");
    out.append(name);
    if crate::yaml_utils::has_char(value, '\n') {
        out.append("\n    type: echo\n    params:\n      echo: |");
        proof {
            reveal_strlit("2");
            reveal_strlit("-");
            assert("2"@ =~= seq!['2']);
            assert("-"@ =~= seq!['-']);
        }
        let ghost before = out@;
        if needs_indent_indicator_exec(value) {
            out.append("2");
        }
        let n = value.unicode_len();
        if value.get_char(n - 1) != '\n' {
            out.append("-");
        }
        assert(out@ =~= before + block_indicators(value@));
        out.append("\n        ");
        crate::yaml_utils::append_expanded(out, value, '\n', "\n        ");
    } else {
        out.append("\n    type: echo\n    params:\n      echo: ");
        let e = escape_yaml_value(value);
        out.append(e.as_str());
    }
}

fn append_definitions(out: &mut String, defs: &Vec<ProjectCategoryVariable>, values: &VariableValues)
    ensures
        final(out)@ == old(out)@ + definitions_text(defs@, values.deep_view()),
{
    let ghost start = out@;
    let n = defs.len();
    let mut i: usize = 0;
    while i < n
        invariant
            n == defs@.len(),
            i <= n,
            out@ == start + definitions_text(defs@.subrange(0, i as int), values.deep_view()),
        decreases n - i,
    {
        assert(defs@.subrange(0, i + 1).drop_last() =~= defs@.subrange(0, i as int));
        let def = &defs[i];
        match find_key(values, def.id.as_str()) {
            Some(k) => {
                let v = values[k].1.as_str();
                if !is_blank_str(v) {
                    append_entry(out, def.name.as_str(), v);
                }
            },
            None => {},
        }
        i = i + 1;
    }
    assert(defs@.subrange(0, n as int) =~= defs@);
}

/// The active-variables document of a project: a header that names it, then
/// for each bucket of values, in order, the variables that the matching
/// category definition declares, in declaration order, with a non-blank value.
pub fn active_vars_document(project: &Project, categories: &Vec<ProjectCategory>) -> (r: String)
    ensures
        r@ == active_vars_text(project@, categories@),
{
    let mut out = String::from_str("# Generated active project variables for: ");
    let name = inline_scalar_exec(project.name.as_str());
    out.append(name.as_str());
    out.append("\nglobal_vars:");
    let ghost start = out@;
    let buckets: &CategoryValues = &project.category_values;
    let ghost bv = buckets.deep_view();
    let n = buckets.len();
    let mut i: usize = 0;
    while i < n
        invariant
            n == buckets@.len(),
            bv == buckets.deep_view(),
            i <= n,
            out@ == start + buckets_text(bv.subrange(0, i as int), categories@),
        decreases n - i,
    {
        assert(bv.subrange(0, i + 1).drop_last() =~= bv.subrange(0, i as int));
        let bucket = &buckets[i];
        match category_position(categories, bucket.0.as_str()) {
            Some(c) => {
                append_definitions(&mut out, &categories[c].variable_definitions, &bucket.1);
            },
            None => {},
        }
        i = i + 1;
    }
    assert(bv.subrange(0, n as int) =~= bv);
    out.append("\n");
    out
}

/// Renders the active-variables document and checks it with the YAML reader;
/// a document that the reader refuses is an error.
pub fn render_active_vars(project: &Project, categories: &Vec<ProjectCategory>) -> (r: Result<
    String,
    String,
>)
    ensures
        r is Ok <==> yaml_accepts(active_vars_text(project@, categories@)),
        r matches Ok(s) ==> s@ == active_vars_text(project@, categories@),
{
    let text = active_vars_document(project, categories);
    match check_yaml(text.as_str()) {
        None => Ok(text),
        Some(e) => Err(String::from_str("Generated invalid YAML: ").concat(e.as_str())),
    }
}

/// The selector document: a fixed header, then each project of the catalogue
/// in order as a label and an id; an empty catalogue gives an empty list.
pub fn render_project_selector(projects: &Vec<Project>) -> (r: String)
    ensures
        r@ == selector_text(views(projects@)),
{
    let ghost v = views(projects@);
    let mut out = String::from_str(
        "# Generated project selector for quick switching\nmatches:\n  - trigger: \":project\"\n    replace: \"{{project_choice}}\"\n    vars:\n      - name: project_choice\n        type: choice\n        params:\n",
    );
    let n = projects.len();
    if n == 0 {
        out.append("          values: []\n");
        return out;
    }
    out.append("          values:\n");
    let ghost start = out@;
    let mut i: usize = 0;
    while i < n
        invariant
            n == projects@.len(),
            v == views(projects@),
            i <= n,
            out@ == start + choices_text(v.subrange(0, i as int)),
        decreases n - i,
    {
        assert(v.subrange(0, i + 1).drop_last() =~= v.subrange(0, i as int));
        let p = &projects[i];
        assert(v[i as int] == p@);
        out.append("          - label: ");
        let label = inline_scalar_exec(p.name.as_str());
        out.append(label.as_str());
        out.append("\n            id: \"");
        append_double_quoted_body(&mut out, p.id.as_str());
        out.append("\"\n");
        i = i + 1;
    }
    assert(v.subrange(0, n as int) =~= v);
    out
}

/// Renders the selector document and checks it with the YAML reader; a
/// document that the reader refuses is an error.
pub fn render_checked_selector(projects: &Vec<Project>) -> (r: Result<String, String>)
    ensures
        r is Ok <==> yaml_accepts(selector_text(views(projects@))),
        r matches Ok(s) ==> s@ == selector_text(views(projects@)),
{
    let text = render_project_selector(projects);
    match check_yaml(text.as_str()) {
        None => Ok(text),
        Some(e) => Err(String::from_str("Generated invalid YAML: ").concat(e.as_str())),
    }
}

/// The active-variables document when no project is active.
pub fn cleared_active_vars() -> (r: String)
    ensures
        r@ == cleared_text(),
{
    String::from_str(
        "# No active project - project variables will not be available\nglobal_vars: []\n",
    )
}

} // verus!
