//! Algorithm templates: the starter programs offered for each language, the
//! built-in list used when no manifest can be read, the choice of the default
//! template, and the naming of new custom templates.
use vstd::prelude::*;
use crate::text::{
    ascii_lower, chars_eq, chars_of, eq_ignore_case, eq_ignore_case_chars, is_ascii_alnum,
    char_ascii_lower, char_is_ascii_alnum, push_chars, push_str, string_from_chars,
    strip_char, strip_char_chars,
};
use crate::types::CodeLanguage;

verus! {

/// The id of the pseudo-template that stands for "create a new template".
pub const CREATE_NEW_TEMPLATE_ID: &'static str = "__create_new__";

/// One entry of the template manifest.
#[derive(Debug, PartialEq, Eq)]
pub struct AlgorithmTemplateEntry {
    pub id: String,
    pub name: String,
    pub description: String,
    pub language: CodeLanguage,
    pub path: Option<String>,
    pub builtin: bool,
    pub editable: bool,
    pub is_root: bool,
}

/// A template entry as plain values.
pub struct TemplateView {
    pub id: Seq<char>,
    pub name: Seq<char>,
    pub description: Seq<char>,
    pub language: CodeLanguage,
    pub path: Option<Seq<char>>,
    pub builtin: bool,
    pub editable: bool,
    pub is_root: bool,
}

pub open spec fn opt_view(p: Option<String>) -> Option<Seq<char>> {
    match p {
        Some(s) => Some(s@),
        None => None,
    }
}

impl View for AlgorithmTemplateEntry {
    type V = TemplateView;

    open spec fn view(&self) -> TemplateView {
        TemplateView {
            id: self.id@,
            name: self.name@,
            description: self.description@,
            language: self.language,
            path: opt_view(self.path),
            builtin: self.builtin,
            editable: self.editable,
            is_root: self.is_root,
        }
    }
}

impl Clone for AlgorithmTemplateEntry {
    fn clone(&self) -> (r: Self)
        ensures
            r == *self,
    {
        AlgorithmTemplateEntry {
            id: self.id.clone(),
            name: self.name.clone(),
            description: self.description.clone(),
            language: self.language,
            path: match &self.path {
                Some(p) => Some(p.clone()),
                None => None,
            },
            builtin: self.builtin,
            editable: self.editable,
            is_root: self.is_root,
        }
    }
}

/// The views of a list of entries.
pub open spec fn entry_views(s: Seq<AlgorithmTemplateEntry>) -> Seq<TemplateView> {
    s.map_values(|e: AlgorithmTemplateEntry| e@)
}

pub open spec fn create_new_id() -> Seq<char> {
    "__create_new__"@
}

pub open spec fn is_create_new_view(v: TemplateView) -> bool {
    v.id == create_new_id()
}

pub open spec fn path_for_language_view(v: TemplateView, language: CodeLanguage) -> Option<Seq<char>> {
    if v.language == language {
        v.path
    } else {
        None
    }
}

/// The directory of a language's templates.
pub open spec fn dir_of(language: CodeLanguage) -> Seq<char> {
    match language {
        CodeLanguage::Cpp => "cpp"@,
        CodeLanguage::Python => "python"@,
        CodeLanguage::Java => "java"@,
    }
}

/// The name of a language as shown to the user.
pub open spec fn label_of(language: CodeLanguage) -> Seq<char> {
    match language {
        CodeLanguage::Cpp => "C++"@,
        CodeLanguage::Python => "Python"@,
        CodeLanguage::Java => "Java"@,
    }
}

/// Whether custom templates can be made for a language.
pub open spec fn supports_custom(language: CodeLanguage) -> bool {
    language == CodeLanguage::Python || language == CodeLanguage::Cpp
}

impl AlgorithmTemplateEntry {
    /// Whether the entry is written in `language`.
    pub fn supports_language(&self, language: CodeLanguage) -> (r: bool)
        ensures
            r == (self.language == language),
    {
        self.language == language
    }

    /// Whether the entry is the "create new" pseudo-template.
    pub fn is_create_new(&self) -> (r: bool)
        ensures
            r == is_create_new_view(self@),
    {
        let id = chars_of(self.id.as_str());
        let target = chars_of(CREATE_NEW_TEMPLATE_ID);
        chars_eq(&id, &target)
    }

    /// Built-in and non-editable templates are read-only.
    pub fn is_read_only(&self) -> (r: bool)
        ensures
            r == (!self.editable || self.builtin),
    {
        !self.editable || self.builtin
    }

    /// The file of the template, when it is written in `language`.
    pub fn path_for_language(&self, language: CodeLanguage) -> (r: Option<&str>)
        ensures
            match r {
                Some(p) => path_for_language_view(self@, language) == Some(p@),
                None => path_for_language_view(self@, language) is None,
            },
    {
        if self.language == language {
            match &self.path {
                Some(p) => Some(p.as_str()),
                None => None,
            }
        } else {
            None
        }
    }

    /// The text shown for the entry in a template list: "Create New...",
    /// the name followed by " [DEFAULT]" for a built-in template, or the
    /// name.
    pub fn display_label(&self) -> (r: String)
        ensures
            r@ == display_label_view(self@),
    {
        if self.is_create_new() {
            "Create New...".to_owned()
        } else if self.builtin {
            let mut out = chars_of(self.name.as_str());
            push_str(&mut out, " [DEFAULT]");
            string_from_chars(&out)
        } else {
            self.name.clone()
        }
    }
}

pub open spec fn display_label_view(v: TemplateView) -> Seq<char> {
    if is_create_new_view(v) {
        "Create New..."@
    } else if v.builtin {
        v.name + " [DEFAULT]"@
    } else {
        v.name
    }
}

pub fn language_dir(language: CodeLanguage) -> (r: &'static str)
    ensures
        r@ == dir_of(language),
{
    match language {
        CodeLanguage::Cpp => "cpp",
        CodeLanguage::Python => "python",
        CodeLanguage::Java => "java",
    }
}

pub fn language_label(language: CodeLanguage) -> (r: &'static str)
    ensures
        r@ == label_of(language),
{
    match language {
        CodeLanguage::Cpp => "C++",
        CodeLanguage::Python => "Python",
        CodeLanguage::Java => "Java",
    }
}

/// The value a manifest entry takes for `editable` and `is_root` when it
/// does not give one.
pub fn default_true() -> (r: bool)
    ensures
        r,
{
    true
}

/// An entry from its parts.
fn make_entry(
    id: &str,
    name: &str,
    description: &str,
    language: CodeLanguage,
    path: Option<&str>,
    builtin: bool,
    editable: bool,
    is_root: bool,
) -> (e: AlgorithmTemplateEntry)
    ensures
        e@ == (TemplateView {
            id: id@,
            name: name@,
            description: description@,
            language,
            path: match path {
                Some(p) => Some(p@),
                None => None,
            },
            builtin,
            editable,
            is_root,
        }),
{
    AlgorithmTemplateEntry {
        id: id.to_owned(),
        name: name.to_owned(),
        description: description.to_owned(),
        language,
        path: match path {
            Some(p) => Some(p.to_owned()),
            None => None,
        },
        builtin,
        editable,
        is_root,
    }
}

/// The description of the "create new" entry of a language.
pub open spec fn create_new_description(language: CodeLanguage) -> Seq<char> {
    "Create a new editable "@ + label_of(language) + " template saved under algorithm_templates/"@
        + dir_of(language) + "/root/."@
}

pub open spec fn create_new_view(language: CodeLanguage) -> TemplateView {
    TemplateView {
        id: create_new_id(),
        name: "Create New"@,
        description: create_new_description(language),
        language,
        path: None,
        builtin: false,
        editable: false,
        is_root: true,
    }
}

/// The "create new" pseudo-template of a language.
pub fn create_new_entry(language: CodeLanguage) -> (e: AlgorithmTemplateEntry)
    ensures
        e@ == create_new_view(language),
{
    let mut d: Vec<char> = Vec::new();
    push_str(&mut d, "Create a new editable ");
    push_str(&mut d, language_label(language));
    push_str(&mut d, " template saved under algorithm_templates/");
    push_str(&mut d, language_dir(language));
    push_str(&mut d, "/root/.");
    assert(d@ == create_new_description(language));
    AlgorithmTemplateEntry {
        id: CREATE_NEW_TEMPLATE_ID.to_owned(),
        name: "Create New".to_owned(),
        description: string_from_chars(&d),
        language,
        path: None,
        builtin: false,
        editable: false,
        is_root: true,
    }
}

/// A built-in template: read-only, with a file.
pub open spec fn builtin_view(
    id: Seq<char>,
    name: Seq<char>,
    description: Seq<char>,
    language: CodeLanguage,
    path: Seq<char>,
    is_root: bool,
) -> TemplateView {
    TemplateView { id, name, description, language, path: Some(path), builtin: true, editable: false, is_root }
}

/// The templates used when no manifest entry can be used.
pub open spec fn fallback_views() -> Seq<TemplateView> {
    seq![
        builtin_view("blank_python"@, "Blank"@, "Minimal starter template using the helper library."@, CodeLanguage::Python, "python/root/blank.py"@, true),
        builtin_view("blank_cpp"@, "Blank"@, "Minimal starter template using the helper library."@, CodeLanguage::Cpp, "cpp/root/blank.cpp"@, true),
        builtin_view("nfdh_python"@, "NFDH"@, "Next-Fit Decreasing Height strip packing."@, CodeLanguage::Python, "python/root/nfdh.py"@, true),
        builtin_view("nfdh_cpp"@, "NFDH"@, "Next-Fit Decreasing Height strip packing."@, CodeLanguage::Cpp, "cpp/root/nfdh.cpp"@, true),
        builtin_view("ffdh_python"@, "FFDH"@, "First-Fit Decreasing Height strip packing."@, CodeLanguage::Python, "python/root/ffdh.py"@, true),
        builtin_view("ffdh_cpp"@, "FFDH"@, "First-Fit Decreasing Height strip packing."@, CodeLanguage::Cpp, "cpp/root/ffdh.cpp"@, true),
        builtin_view("fspp_python"@, "FSPP"@, "Fractional strip-packing template."@, CodeLanguage::Python, "python/root/fspp.py"@, true),
        builtin_view("three_fspp_python"@, "3FSPP"@, "Three-strip fractional strip-packing template."@, CodeLanguage::Python, "python/root/three_fspp.py"@, true),
        builtin_view("default_node_python"@, "Default Node"@, "Default Python repacking template."@, CodeLanguage::Python, "python/node/default.py"@, false),
        builtin_view("default_node_cpp"@, "Default Node"@, "Default C++ repacking template."@, CodeLanguage::Cpp, "cpp/node/default.cpp"@, false),
        builtin_view("bfdh_python"@, "BFDH"@, "Best fit decreasing height"@, CodeLanguage::Python, "python/root/bfdh.py"@, true),
        builtin_view("rf_python"@, "RF"@, "Reverse Fit"@, CodeLanguage::Python, "python/root/rf.py"@, true),
        builtin_view("RF_cpp"@, "RF"@, "Reverse fit"@, CodeLanguage::Cpp, "cpp/root/rf.cpp"@, true),
        builtin_view("bfdh_python"@, "BFDH"@, "Best fit decreasing height"@, CodeLanguage::Cpp, "cpp/root/rf.cpp"@, true),
    ]
}

fn builtin_entry(
    id: &str,
    name: &str,
    description: &str,
    language: CodeLanguage,
    path: &str,
    is_root: bool,
) -> (e: AlgorithmTemplateEntry)
    ensures
        e@ == builtin_view(id@, name@, description@, language, path@, is_root),
{
    make_entry(id, name, description, language, Some(path), true, false, is_root)
}

/// The built-in templates, used when the manifest is missing, unreadable or
/// lists no template whose file exists.
pub fn fallback_templates() -> (r: Vec<AlgorithmTemplateEntry>)
    ensures
        entry_views(r@) == fallback_views(),
{
    let mut v: Vec<AlgorithmTemplateEntry> = Vec::new();
    v.push(builtin_entry("blank_python", "Blank", "Minimal starter template using the helper library.", CodeLanguage::Python, "python/root/blank.py", true));
    v.push(builtin_entry("blank_cpp", "Blank", "Minimal starter template using the helper library.", CodeLanguage::Cpp, "cpp/root/blank.cpp", true));
    v.push(builtin_entry("nfdh_python", "NFDH", "Next-Fit Decreasing Height strip packing.", CodeLanguage::Python, "python/root/nfdh.py", true));
    v.push(builtin_entry("nfdh_cpp", "NFDH", "Next-Fit Decreasing Height strip packing.", CodeLanguage::Cpp, "cpp/root/nfdh.cpp", true));
    v.push(builtin_entry("ffdh_python", "FFDH", "First-Fit Decreasing Height strip packing.", CodeLanguage::Python, "python/root/ffdh.py", true));
    v.push(builtin_entry("ffdh_cpp", "FFDH", "First-Fit Decreasing Height strip packing.", CodeLanguage::Cpp, "cpp/root/ffdh.cpp", true));
    v.push(builtin_entry("fspp_python", "FSPP", "Fractional strip-packing template.", CodeLanguage::Python, "python/root/fspp.py", true));
    v.push(builtin_entry("three_fspp_python", "3FSPP", "Three-strip fractional strip-packing template.", CodeLanguage::Python, "python/root/three_fspp.py", true));
    v.push(builtin_entry("default_node_python", "Default Node", "Default Python repacking template.", CodeLanguage::Python, "python/node/default.py", false));
    v.push(builtin_entry("default_node_cpp", "Default Node", "Default C++ repacking template.", CodeLanguage::Cpp, "cpp/node/default.cpp", false));
    v.push(builtin_entry("bfdh_python", "BFDH", "Best fit decreasing height", CodeLanguage::Python, "python/root/bfdh.py", true));
    v.push(builtin_entry("rf_python", "RF", "Reverse Fit", CodeLanguage::Python, "python/root/rf.py", true));
    v.push(builtin_entry("RF_cpp", "RF", "Reverse fit", CodeLanguage::Cpp, "cpp/root/rf.cpp", true));
    v.push(builtin_entry("bfdh_python", "BFDH", "Best fit decreasing height", CodeLanguage::Cpp, "cpp/root/rf.cpp", true));
    assert(entry_views(v@) =~= fallback_views());
    v
}

/// The directory, relative to the template root, that holds a language's
/// root templates (`<language>/root/`) or node templates (`<language>/node/`).
pub open spec fn template_dir_prefix(language: CodeLanguage, is_root: bool) -> Seq<char> {
    dir_of(language) + if is_root { "/root/"@ } else { "/node/"@ }
}

/// The template has a file, and that file lies in the directory of its
/// language and kind.
pub open spec fn stored_in_language_dir(v: TemplateView) -> bool {
    match v.path {
        Some(p) => {
            let prefix = template_dir_prefix(v.language, v.is_root);
            prefix.len() < p.len() && p.take(prefix.len() as int) == prefix
        },
        None => false,
    }
}

/// Every built-in template has a file under `<language>/root/` or
/// `<language>/node/`, as its language and kind say.
pub proof fn lemma_fallback_layout()
    ensures
        forall|i: int| 0 <= i < fallback_views().len() ==> stored_in_language_dir(#[trigger] fallback_views()[i]),
{
    reveal_strlit("cpp");
    reveal_strlit("python");
    reveal_strlit("/root/");
    reveal_strlit("/node/");
    reveal_strlit("python/root/blank.py");
    reveal_strlit("cpp/root/blank.cpp");
    reveal_strlit("python/root/nfdh.py");
    reveal_strlit("cpp/root/nfdh.cpp");
    reveal_strlit("python/root/ffdh.py");
    reveal_strlit("cpp/root/ffdh.cpp");
    reveal_strlit("python/root/fspp.py");
    reveal_strlit("python/root/three_fspp.py");
    reveal_strlit("python/node/default.py");
    reveal_strlit("cpp/node/default.cpp");
    reveal_strlit("python/root/bfdh.py");
    reveal_strlit("python/root/rf.py");
    reveal_strlit("cpp/root/rf.cpp");
    let f = fallback_views();
    assert forall|i: int| 0 <= i < f.len() implies stored_in_language_dir(#[trigger] f[i]) by {
        let p = f[i].path.unwrap();
        let prefix = template_dir_prefix(f[i].language, f[i].is_root);
        assert(p.take(prefix.len() as int) =~= prefix);
    }
}

pub open spec fn is_root_for(v: TemplateView, language: CodeLanguage) -> bool {
    v.is_root && v.language == language
}

pub open spec fn is_blank_root_for(v: TemplateView, language: CodeLanguage) -> bool {
    is_root_for(v, language) && eq_ignore_case(v.name, "Blank"@)
}

/// The root templates of a language, in their order.
pub open spec fn roots_for(s: Seq<TemplateView>, language: CodeLanguage) -> Seq<TemplateView>
    decreases s.len(),
{
    if s.len() == 0 {
        Seq::empty()
    } else {
        let r = roots_for(s.drop_last(), language);
        if is_root_for(s.last(), language) {
            r.push(s.last())
        } else {
            r
        }
    }
}

/// The templates offered for a language: its root templates, then, for
/// Python and C++, the "create new" entry.
pub open spec fn offered_templates(s: Seq<TemplateView>, language: CodeLanguage) -> Seq<TemplateView> {
    if supports_custom(language) {
        roots_for(s, language).push(create_new_view(language))
    } else {
        roots_for(s, language)
    }
}

/// The root templates of `language` among `templates`, followed for Python
/// and C++ by the "create new" entry.
pub fn templates_for_language(templates: &Vec<AlgorithmTemplateEntry>, language: CodeLanguage) -> (r: Vec<
    AlgorithmTemplateEntry,
>)
    ensures
        entry_views(r@) == offered_templates(entry_views(templates@), language),
{
    let mut out: Vec<AlgorithmTemplateEntry> = Vec::new();
    let ghost all = entry_views(templates@);
    let mut i: usize = 0;
    while i < templates.len()
        invariant
            i <= templates.len(),
            all == entry_views(templates@),
            entry_views(out@) == roots_for(all.take(i as int), language),
        decreases templates.len() - i,
    {
        let t = &templates[i];
        assert(all.take(i + 1).drop_last() == all.take(i as int));
        if t.is_root && t.supports_language(language) {
            let c = t.clone();
            out.push(c);
            assert(entry_views(out@) =~= roots_for(all.take(i as int), language).push(all[i as int]));
        }
        i += 1;
    }
    assert(all.take(i as int) == all);
    if language == CodeLanguage::Python || language == CodeLanguage::Cpp {
        let e = create_new_entry(language);
        let ghost before = entry_views(out@);
        out.push(e);
        assert(entry_views(out@) =~= before.push(create_new_view(language)));
    }
    out
}

/// The index of the first element of `s` that satisfies `p`, or the length
/// of `s` when none does.
pub open spec fn first_match(s: Seq<TemplateView>, p: spec_fn(TemplateView) -> bool) -> int
    decreases s.len(),
{
    if s.len() == 0 {
        0
    } else {
        let k = first_match(s.drop_last(), p);
        if k < s.len() - 1 {
            k
        } else if p(s.last()) {
            s.len() - 1
        } else {
            s.len() as int
        }
    }
}

proof fn lemma_first_match_bounds(s: Seq<TemplateView>, p: spec_fn(TemplateView) -> bool)
    ensures
        0 <= first_match(s, p) <= s.len(),
        first_match(s, p) < s.len() ==> p(s[first_match(s, p)]),
        forall|j: int| 0 <= j < first_match(s, p) ==> !p(#[trigger] s[j]),
    decreases s.len(),
{
    if s.len() > 0 {
        lemma_first_match_bounds(s.drop_last(), p);
        assert forall|j: int| 0 <= j < first_match(s, p) implies !p(#[trigger] s[j]) by {
            if j < s.len() - 1 {
                assert(s.drop_last()[j] == s[j]);
            }
        }
    }
}

/// A match found in a prefix is the first match of the whole sequence.
proof fn lemma_first_match_prefix(s: Seq<TemplateView>, p: spec_fn(TemplateView) -> bool, j: int)
    requires
        0 <= j <= s.len(),
        first_match(s.take(j), p) < j,
    ensures
        first_match(s, p) == first_match(s.take(j), p),
    decreases s.len(),
{
    if j < s.len() {
        assert(s.drop_last().take(j) == s.take(j));
        lemma_first_match_prefix(s.drop_last(), p, j);
    } else {
        assert(s.take(j) == s);
    }
}

/// The index of the first entry that is a root template of `language` (and,
/// when `blank`, is named "Blank" in any ASCII case), or the length of the
/// list.
fn find_root(templates: &Vec<AlgorithmTemplateEntry>, language: CodeLanguage, blank: bool) -> (k: usize)
    ensures
        blank ==> k == first_match(entry_views(templates@), |v: TemplateView| is_blank_root_for(v, language)),
        !blank ==> k == first_match(entry_views(templates@), |v: TemplateView| is_root_for(v, language)),
{
    let ghost all = entry_views(templates@);
    let ghost p = if blank {
        |v: TemplateView| is_blank_root_for(v, language)
    } else {
        |v: TemplateView| is_root_for(v, language)
    };
    let target = chars_of("Blank");
    let mut i: usize = 0;
    while i < templates.len()
        invariant
            i <= templates.len(),
            all == entry_views(templates@),
            target@ == "Blank"@,
            p == (if blank {
                |v: TemplateView| is_blank_root_for(v, language)
            } else {
                |v: TemplateView| is_root_for(v, language)
            }),
            first_match(all.take(i as int), p) == i,
        decreases templates.len() - i,
    {
        let t = &templates[i];
        assert(all.take(i + 1).drop_last() == all.take(i as int));
        let mut hit = t.is_root && t.supports_language(language);
        if hit && blank {
            let name = chars_of(t.name.as_str());
            hit = eq_ignore_case_chars(&name, &target);
        }
        assert(hit == p(all[i as int]));
        if hit {
            proof {
                lemma_first_match_prefix(all, p, i + 1);
            }
            return i;
        }
        i += 1;
    }
    assert(all.take(i as int) == all);
    i
}

/// The template chosen by default for a language.
pub open spec fn default_root_view(s: Seq<TemplateView>, language: CodeLanguage) -> TemplateView {
    let a = first_match(s, |v: TemplateView| is_blank_root_for(v, language));
    let b = first_match(s, |v: TemplateView| is_root_for(v, language));
    let f = fallback_views();
    let c = first_match(f, |v: TemplateView| is_root_for(v, language));
    if a < s.len() {
        s[a]
    } else if b < s.len() {
        s[b]
    } else if c < f.len() {
        f[c]
    } else {
        f[0]
    }
}

/// The default template of a language: the first root template of it named
/// "Blank" (in any ASCII case), else its first root template, else its first
/// built-in root template, else the first built-in template.
pub fn default_root_template_for_language(templates: &Vec<AlgorithmTemplateEntry>, language: CodeLanguage) -> (r:
    AlgorithmTemplateEntry)
    ensures
        r@ == default_root_view(entry_views(templates@), language),
{
    let a = find_root(templates, language, true);
    if a < templates.len() {
        return templates[a].clone();
    }
    let b = find_root(templates, language, false);
    if b < templates.len() {
        return templates[b].clone();
    }
    let fallback = fallback_templates();
    let c = find_root(&fallback, language, false);
    if c < fallback.len() {
        fallback[c].clone()
    } else {
        fallback[0].clone()
    }
}

/// Whether an entry can be used: the "create new" entry always can; another
/// needs a file, which exists.
pub open spec fn usable_view(v: TemplateView, file_exists: bool) -> bool {
    is_create_new_view(v) || (v.path is Some && file_exists)
}

pub fn template_files_exist(template: &AlgorithmTemplateEntry, file_exists: bool) -> (r: bool)
    ensures
        r == usable_view(template@, file_exists),
{
    if template.is_create_new() {
        return true;
    }
    template.path.is_some() && file_exists
}

/// The usable entries of a manifest, given for each whether its file exists.
pub open spec fn usable_entries(s: Seq<TemplateView>, file_exists: Seq<bool>) -> Seq<TemplateView>
    decreases s.len(),
{
    if s.len() == 0 {
        Seq::empty()
    } else {
        let r = usable_entries(s.drop_last(), file_exists);
        if usable_view(s.last(), file_exists[s.len() - 1]) {
            r.push(s.last())
        } else {
            r
        }
    }
}

/// The templates in use: the usable entries of the manifest, or the built-in
/// list when the manifest could not be read or has none.
pub open spec fn loaded_templates(manifest: Option<Seq<TemplateView>>, file_exists: Seq<bool>) -> Seq<TemplateView> {
    match manifest {
        Some(s) => if usable_entries(s, file_exists).len() > 0 {
            usable_entries(s, file_exists)
        } else {
            fallback_views()
        },
        None => fallback_views(),
    }
}

pub open spec fn manifest_views(m: Option<Vec<AlgorithmTemplateEntry>>) -> Option<Seq<TemplateView>> {
    match m {
        Some(v) => Some(entry_views(v@)),
        None => None,
    }
}

/// The templates in use, from the manifest as read (`None` when it could not
/// be read or parsed) and, for each of its entries, whether the file named by
/// its path exists.
pub fn load_templates(manifest: Option<Vec<AlgorithmTemplateEntry>>, file_exists: &Vec<bool>) -> (r: Vec<
    AlgorithmTemplateEntry,
>)
    requires
        manifest matches Some(v) ==> file_exists@.len() == v@.len(),
    ensures
        entry_views(r@) == loaded_templates(manifest_views(manifest), file_exists@),
{
    match manifest {
        Some(entries) => {
            let ghost all = entry_views(entries@);
            let mut out: Vec<AlgorithmTemplateEntry> = Vec::new();
            let mut i: usize = 0;
            while i < entries.len()
                invariant
                    i <= entries.len(),
                    file_exists@.len() == entries@.len(),
                    all == entry_views(entries@),
                    entry_views(out@) == usable_entries(all.take(i as int), file_exists@),
                decreases entries.len() - i,
            {
                let t = &entries[i];
                assert(all.take(i + 1).drop_last() == all.take(i as int));
                if template_files_exist(t, file_exists[i]) {
                    let c = t.clone();
                    out.push(c);
                    assert(entry_views(out@) =~= usable_entries(all.take(i as int), file_exists@).push(all[i as int]));
                }
                i += 1;
            }
            assert(all.take(i as int) == all);
            if out.len() > 0 {
                out
            } else {
                fallback_templates()
            }
        },
        None => fallback_templates(),
    }
}

/// The root templates among a list.
pub open spec fn root_entries(s: Seq<TemplateView>) -> Seq<TemplateView>
    decreases s.len(),
{
    if s.len() == 0 {
        Seq::empty()
    } else {
        let r = root_entries(s.drop_last());
        if s.last().is_root {
            r.push(s.last())
        } else {
            r
        }
    }
}

/// The root templates in use (see `load_templates`).
pub fn load_root_templates(manifest: Option<Vec<AlgorithmTemplateEntry>>, file_exists: &Vec<bool>) -> (r: Vec<
    AlgorithmTemplateEntry,
>)
    requires
        manifest matches Some(v) ==> file_exists@.len() == v@.len(),
    ensures
        entry_views(r@) == root_entries(loaded_templates(manifest_views(manifest), file_exists@)),
{
    let all_entries = load_templates(manifest, file_exists);
    let ghost all = entry_views(all_entries@);
    let mut out: Vec<AlgorithmTemplateEntry> = Vec::new();
    let mut i: usize = 0;
    while i < all_entries.len()
        invariant
            i <= all_entries.len(),
            all == entry_views(all_entries@),
            entry_views(out@) == root_entries(all.take(i as int)),
        decreases all_entries.len() - i,
    {
        let t = &all_entries[i];
        assert(all.take(i + 1).drop_last() == all.take(i as int));
        if t.is_root {
            let c = t.clone();
            out.push(c);
            assert(entry_views(out@) =~= root_entries(all.take(i as int)).push(all[i as int]));
        }
        i += 1;
    }
    assert(all.take(i as int) == all);
    out
}

/// Lines joined with a newline between each two.
pub open spec fn join_lines(lines: Seq<Seq<char>>) -> Seq<char> {
    crate::text::join(lines, seq!['\n'])
}

pub open spec fn str_views(v: Seq<&str>) -> Seq<Seq<char>> {
    v.map_values(|s: &str| s@)
}

/// `lines.join("\n")`.
fn join_with_newlines(lines: &Vec<&str>) -> (r: String)
    ensures
        r@ == join_lines(str_views(lines@)),
{
    let ghost all = str_views(lines@);
    let mut out: Vec<char> = Vec::new();
    let mut i: usize = 0;
    while i < lines.len()
        invariant
            i <= lines.len(),
            all == str_views(lines@),
            out@ == join_lines(all.take(i as int)),
        decreases lines.len() - i,
    {
        assert(all.take(i + 1).drop_last() == all.take(i as int));
        if i > 0 {
            out.push('\n');
        } else {
            assert(all.take(1) == seq![all[0]]);
        }
        push_str(&mut out, lines[i]);
        i += 1;
    }
    assert(all.take(i as int) == all);
    string_from_chars(&out)
}

/// The lines of the program a new custom template starts with.
pub open spec fn starter_lines(language: CodeLanguage) -> Seq<Seq<char>> {
    match language {
        CodeLanguage::Python => seq![
            "import packing_lib"@,
            "from typing import List, Tuple"@,
            ""@,
            "class Packing:"@,
            "    def solve(self, bin_width: int, rectangles: List[Tuple[int, int, int]]) -> List[Tuple[float, float, int, int]]:"@,
            "        placements = []"@,
            "        return packing_lib.output_from_placements(bin_width, placements)"@,
            ""@,
        ],
        CodeLanguage::Cpp => seq![
            "#include \"packing_lib.h\""@,
            "using namespace packing;"@,
            ""@,
            "class Packing {"@,
            "public:"@,
            "    std::vector<std::tuple<double, double, int, int>> solve("@,
            "        int binWidth,"@,
            "        const std::vector<std::tuple<int, int, int>>& rectangles"@,
            "    ) {"@,
            "        std::vector<std::tuple<double, double, int, int>> placements;"@,
            "        return placements;"@,
            "    }"@,
            "};"@,
            ""@,
        ],
        CodeLanguage::Java => Seq::empty(),
    }
}

/// `t` occurs in `s`.
pub open spec fn has_text(s: Seq<char>, t: Seq<char>) -> bool {
    exists|i: int, j: int| 0 <= i && j == i + t.len() && j <= s.len() && #[trigger] s.subrange(i, j) == t
}

/// The starter program of Python and C++ declares the class `Packing` and,
/// inside it, the entry point the runners call: a method `solve` that takes
/// the bin width and then the rectangles (in C++, one parameter per line
/// after the line that opens `solve(`).
pub proof fn lemma_starter_defines_solve(language: CodeLanguage)
    requires
        supports_custom(language),
    ensures
        ({
            let ls = starter_lines(language);
            exists|c: int, m: int|
                0 <= c < m && m + 2 < ls.len() && has_text(#[trigger] ls[c], "class Packing"@) && if language
                    == CodeLanguage::Python {
                    has_text(#[trigger] ls[m], "def solve(self, bin_width"@) && has_text(ls[m], "rectangles"@)
                } else {
                    has_text(ls[m], " solve("@) && has_text(ls[m + 1], "int binWidth"@) && has_text(
                        ls[m + 2],
                        "rectangles"@,
                    )
                }
        }),
{
    reveal_strlit("class Packing");
    reveal_strlit("def solve(self, bin_width");
    reveal_strlit("rectangles");
    reveal_strlit(" solve(");
    reveal_strlit("int binWidth");
    let ls = starter_lines(language);
    if language == CodeLanguage::Python {
        reveal_strlit("class Packing:");
        reveal_strlit("    def solve(self, bin_width: int, rectangles: List[Tuple[int, int, int]]) -> List[Tuple[float, float, int, int]]:");
        assert(ls[3].subrange(0, 13) =~= "class Packing"@);
        assert(ls[4].subrange(4, 29) =~= "def solve(self, bin_width"@);
        assert(ls[4].subrange(36, 46) =~= "rectangles"@);
        assert(has_text(ls[3], "class Packing"@));
        assert(has_text(ls[4], "def solve(self, bin_width"@));
        assert(has_text(ls[4], "rectangles"@));
        assert(ls.len() > 6);
    } else {
        reveal_strlit("class Packing {");
        reveal_strlit("    std::vector<std::tuple<double, double, int, int>> solve(");
        reveal_strlit("        int binWidth,");
        reveal_strlit("        const std::vector<std::tuple<int, int, int>>& rectangles");
        assert(ls[3].subrange(0, 13) =~= "class Packing"@);
        assert(ls[5].subrange(53, 60) =~= " solve("@);
        assert(ls[6].subrange(8, 20) =~= "int binWidth"@);
        assert(ls[7].subrange(54, 64) =~= "rectangles"@);
        assert(has_text(ls[3], "class Packing"@));
        assert(has_text(ls[5], " solve("@));
        assert(has_text(ls[6], "int binWidth"@));
        assert(has_text(ls[7], "rectangles"@));
        assert(ls.len() > 7);
    }
}

/// The program a new custom template starts with: a `Packing` class whose
/// `solve` places nothing, for Python and C++; nothing for Java.
pub fn custom_template_starter(language: CodeLanguage) -> (r: String)
    ensures
        r@ == join_lines(starter_lines(language)),
{
    match language {
        CodeLanguage::Python => {
            let lines: Vec<&str> = vec![
                "import packing_lib",
                "from typing import List, Tuple",
                "",
                "class Packing:",
                "    def solve(self, bin_width: int, rectangles: List[Tuple[int, int, int]]) -> List[Tuple[float, float, int, int]]:",
                "        placements = []",
                "        return packing_lib.output_from_placements(bin_width, placements)",
                "",
            ];
            assert(str_views(lines@) =~= starter_lines(language));
            join_with_newlines(&lines)
        },
        CodeLanguage::Cpp => {
            let lines: Vec<&str> = vec![
                "#include \"packing_lib.h\"",
                "using namespace packing;",
                "",
                "class Packing {",
                "public:",
                "    std::vector<std::tuple<double, double, int, int>> solve(",
                "        int binWidth,",
                "        const std::vector<std::tuple<int, int, int>>& rectangles",
                "    ) {",
                "        std::vector<std::tuple<double, double, int, int>> placements;",
                "        return placements;",
                "    }",
                "};",
                "",
            ];
            assert(str_views(lines@) =~= starter_lines(language));
            join_with_newlines(&lines)
        },
        CodeLanguage::Java => {
            assert(join_lines(starter_lines(language)) =~= Seq::<char>::empty());
            String::new()
        },
    }
}

/// The slug of a name before its outer underscores are removed: letters and
/// digits lowered to ASCII lower case, and each run of other characters
/// replaced by one underscore.
pub open spec fn slug_raw(s: Seq<char>) -> Seq<char>
    decreases s.len(),
{
    if s.len() == 0 {
        Seq::empty()
    } else {
        let r = slug_raw(s.drop_last());
        let c = ascii_lower(s.last());
        if is_ascii_alnum(c) {
            r.push(c)
        } else if r.len() > 0 && r.last() == '_' {
            r
        } else {
            r.push('_')
        }
    }
}

/// The slug of a template name, used in the ids of custom templates.
pub open spec fn slug_of(name: Seq<char>) -> Seq<char> {
    let t = strip_char(slug_raw(name), '_');
    if t.len() == 0 {
        "custom_template"@
    } else {
        t
    }
}

/// The slug of a template name: ASCII letters and digits in lower case,
/// every other run of characters as one underscore, no underscore at either
/// end, and "custom_template" when nothing is left.
pub fn sanitize_template_slug(name: &str) -> (r: String)
    ensures
        r@ == slug_of(name@),
{
    let chars = chars_of(name);
    let mut slug: Vec<char> = Vec::new();
    let mut previous_was_underscore = false;
    let mut i: usize = 0;
    while i < chars.len()
        invariant
            i <= chars.len(),
            slug@ == slug_raw(chars@.take(i as int)),
            previous_was_underscore == (slug@.len() > 0 && slug@.last() == '_'),
        decreases chars.len() - i,
    {
        assert(chars@.take(i + 1).drop_last() == chars@.take(i as int));
        let lower = char_ascii_lower(chars[i]);
        if char_is_ascii_alnum(lower) {
            slug.push(lower);
            previous_was_underscore = false;
        } else if !previous_was_underscore {
            slug.push('_');
            previous_was_underscore = true;
        }
        i += 1;
    }
    assert(chars@.take(i as int) == chars@);
    let trimmed = strip_char_chars(&slug, '_');
    if trimmed.len() == 0 {
        "custom_template".to_owned()
    } else {
        string_from_chars(&trimmed)
    }
}

/// The start of the ids of a language's custom templates.
pub open spec fn custom_prefix(language: CodeLanguage) -> Seq<char> {
    match language {
        CodeLanguage::Python => "custom_python_"@,
        CodeLanguage::Cpp => "custom_cpp_"@,
        CodeLanguage::Java => "custom_"@,
    }
}

/// The file extension of a language's templates.
pub open spec fn extension_of(language: CodeLanguage) -> Seq<char> {
    match language {
        CodeLanguage::Python => "py"@,
        CodeLanguage::Cpp => "cpp"@,
        CodeLanguage::Java => "txt"@,
    }
}

/// The `k`-th candidate id of a custom template.
pub open spec fn custom_id(language: CodeLanguage, name: Seq<char>, k: nat) -> Seq<char> {
    custom_prefix(language) + slug_of(name) + seq!['_'] + crate::text::nat_decimal(k)
}

pub open spec fn id_taken(s: Seq<TemplateView>, id: Seq<char>) -> bool {
    exists|i: int| 0 <= i < s.len() && (#[trigger] s[i]).id == id
}

/// `k` is the first candidate number whose id no entry has.
pub open spec fn is_first_free(s: Seq<TemplateView>, language: CodeLanguage, name: Seq<char>, k: nat) -> bool {
    &&& k >= 1
    &&& !id_taken(s, custom_id(language, name, k))
    &&& forall|j: nat| 1 <= j < k ==> id_taken(s, #[trigger] custom_id(language, name, j))
}

pub open spec fn first_free(s: Seq<TemplateView>, language: CodeLanguage, name: Seq<char>) -> nat {
    choose|k: nat| is_first_free(s, language, name, k)
}

/// The description given to a custom template.
pub open spec fn custom_description(language: CodeLanguage, description: Seq<char>) -> Seq<char> {
    if description.len() == 0 {
        "Editable custom "@ + label_of(language) + " template."@
    } else {
        description
    }
}

/// The entry of a new custom template named `name`, among the entries `s`.
pub open spec fn custom_entry_view(
    s: Seq<TemplateView>,
    language: CodeLanguage,
    name: Seq<char>,
    description: Seq<char>,
) -> TemplateView {
    let id = custom_id(language, name, first_free(s, language, name));
    TemplateView {
        id,
        name,
        description: custom_description(language, description),
        language,
        path: Some(dir_of(language) + "/root/"@ + id + seq!['.'] + extension_of(language)),
        builtin: false,
        editable: true,
        is_root: true,
    }
}

proof fn lemma_first_free_unique(s: Seq<TemplateView>, language: CodeLanguage, name: Seq<char>, a: nat, b: nat)
    requires
        is_first_free(s, language, name, a),
        is_first_free(s, language, name, b),
    ensures
        a == b,
{
    if a < b {
        assert(id_taken(s, custom_id(language, name, a)));
    }
    if b < a {
        assert(id_taken(s, custom_id(language, name, b)));
    }
}

/// Different candidate numbers give different ids.
proof fn lemma_custom_id_injective(language: CodeLanguage, name: Seq<char>, a: nat, b: nat)
    requires
        custom_id(language, name, a) == custom_id(language, name, b),
    ensures
        a == b,
{
    let p = custom_prefix(language) + slug_of(name) + seq!['_'];
    let da = crate::text::nat_decimal(a);
    let db = crate::text::nat_decimal(b);
    assert((p + da).skip(p.len() as int) == da);
    assert((p + db).skip(p.len() as int) == db);
    crate::text::lemma_nat_decimal_injective(a, b);
}

/// Whether some entry has the id `id`.
fn has_id(templates: &Vec<AlgorithmTemplateEntry>, id: &Vec<char>) -> (r: bool)
    ensures
        r == id_taken(entry_views(templates@), id@),
{
    let ghost all = entry_views(templates@);
    let mut i: usize = 0;
    while i < templates.len()
        invariant
            i <= templates.len(),
            all == entry_views(templates@),
            forall|j: int| 0 <= j < i ==> (#[trigger] all[j]).id != id@,
        decreases templates.len() - i,
    {
        let other = chars_of(templates[i].id.as_str());
        if chars_eq(&other, id) {
            assert(all[i as int].id == id@);
            return true;
        }
        i += 1;
    }
    false
}

/// The entry of a new custom template: the id is the language's prefix, the
/// slug of the name, an underscore and the first number from 1 on that gives
/// an id no entry has; the file is `<language dir>/root/<id>.<extension>`;
/// an empty description becomes "Editable custom <language> template.".
pub fn build_custom_template_entry(
    templates: &Vec<AlgorithmTemplateEntry>,
    language: CodeLanguage,
    display_name: &str,
    description: &str,
) -> (r: AlgorithmTemplateEntry)
    requires
        templates@.len() < usize::MAX,
    ensures
        r@ == custom_entry_view(entry_views(templates@), language, display_name@, description@),
        !id_taken(entry_views(templates@), r@.id),
{
    let ghost all = entry_views(templates@);
    let ghost ids = all.map_values(|v: TemplateView| v.id).to_set();
    let prefix: &str = match language {
        CodeLanguage::Python => "custom_python_",
        CodeLanguage::Cpp => "custom_cpp_",
        CodeLanguage::Java => "custom_",
    };
    let extension: &str = match language {
        CodeLanguage::Python => "py",
        CodeLanguage::Cpp => "cpp",
        CodeLanguage::Java => "txt",
    };
    assert(prefix@ == custom_prefix(language));
    assert(extension@ == extension_of(language));
    let slug = sanitize_template_slug(display_name);
    let mut stem: Vec<char> = chars_of(prefix);
    push_str(&mut stem, slug.as_str());
    stem.push('_');
    let ghost seen: Set<Seq<char>> = Set::empty();
    proof {
        all.map_values(|v: TemplateView| v.id).lemma_cardinality_of_set();
    }
    let mut index: usize = 1;
    loop
        invariant
            1 <= index <= templates@.len() + 1,
            templates@.len() < usize::MAX,
            all == entry_views(templates@),
            ids == all.map_values(|v: TemplateView| v.id).to_set(),
            ids.len() <= all.len(),
            stem@ == custom_prefix(language) + slug_of(display_name@) + seq!['_'],
            extension@ == extension_of(language),
            seen.finite(),
            seen.len() == index - 1,
            seen.subset_of(ids),
            forall|j: nat| 1 <= j < index ==> #[trigger] seen.contains(custom_id(language, display_name@, j)),
            forall|x: Seq<char>| #[trigger] seen.contains(x) ==> exists|j: nat| 1 <= j < index && x == custom_id(language, display_name@, j),
            forall|j: nat| 1 <= j < index ==> id_taken(all, #[trigger] custom_id(language, display_name@, j)),
        decreases templates@.len() + 1 - index,
    {
        let mut id = stem.clone();
        crate::text::push_nat(&mut id, index as u64);
        assert(id@ == custom_id(language, display_name@, index as nat));
        if has_id(templates, &id) {
            proof {
                let x = custom_id(language, display_name@, index as nat);
                assert(!seen.contains(x)) by {
                    if seen.contains(x) {
                        let j = choose|j: nat| 1 <= j < index && x == custom_id(language, display_name@, j);
                        lemma_custom_id_injective(language, display_name@, j, index as nat);
                    }
                }
                let k = choose|k: int| 0 <= k < all.len() && (#[trigger] all[k]).id == x;
                assert(all.map_values(|v: TemplateView| v.id)[k] == x);
                assert(ids.contains(x));
                let new_seen = seen.insert(x);
                vstd::set_lib::lemma_len_subset(new_seen, ids);
                assert forall|y: Seq<char>| #[trigger] new_seen.contains(y) implies exists|j: nat|
                    1 <= j < index + 1 && y == custom_id(language, display_name@, j) by {
                    if y == x {
                        assert(1 <= index as nat && (index as nat) < index + 1);
                    } else {
                        let j = choose|j: nat| 1 <= j < index && y == custom_id(language, display_name@, j);
                        assert(1 <= j < index + 1);
                    }
                }
                seen = new_seen;
            }
            index = index + 1;
        } else {
            let ghost k = index as nat;
            assert(is_first_free(all, language, display_name@, k));
            proof {
                lemma_first_free_unique(all, language, display_name@, k, first_free(all, language, display_name@));
            }
            let mut path: Vec<char> = chars_of(language_dir(language));
            push_str(&mut path, "/root/");
            push_chars(&mut path, &id);
            path.push('.');
            push_str(&mut path, extension);
            assert(path@ == dir_of(language) + "/root/"@ + id@ + seq!['.'] + extension_of(language));
            let desc = if description.is_empty() {
                let mut d: Vec<char> = chars_of("Editable custom ");
                push_str(&mut d, language_label(language));
                push_str(&mut d, " template.");
                string_from_chars(&d)
            } else {
                description.to_owned()
            };
            assert(desc@ == custom_description(language, description@));
            return AlgorithmTemplateEntry {
                id: string_from_chars(&id),
                name: display_name.to_owned(),
                description: desc,
                language,
                path: Some(string_from_chars(&path)),
                builtin: false,
                editable: true,
                is_root: true,
            };
        }
    }
}

/// Whether a root template of `language` is already named `name`, ignoring
/// ASCII case.
pub open spec fn name_taken(s: Seq<TemplateView>, language: CodeLanguage, name: Seq<char>) -> bool {
    exists|i: int| 0 <= i < s.len() && is_root_for(#[trigger] s[i], language) && eq_ignore_case(s[i].name, name)
}

/// What asking for a new custom template gives: the reason it is refused,
/// or its entry.
pub open spec fn new_custom_template_result(
    s: Seq<TemplateView>,
    language: CodeLanguage,
    display_name: Seq<char>,
    description: Seq<char>,
) -> Result<TemplateView, Seq<char>> {
    let name = crate::text::trim(display_name);
    if !supports_custom(language) {
        Err("Custom templates are only supported for Python and C++."@)
    } else if name.len() == 0 {
        Err("Template name is required."@)
    } else if name_taken(s, language, name) {
        Err("A template named '"@ + name + "' already exists."@)
    } else {
        Ok(custom_entry_view(s, language, name, crate::text::trim(description)))
    }
}

fn name_in_use(templates: &Vec<AlgorithmTemplateEntry>, language: CodeLanguage, name: &Vec<char>) -> (r: bool)
    ensures
        r == name_taken(entry_views(templates@), language, name@),
{
    let ghost all = entry_views(templates@);
    let mut i: usize = 0;
    while i < templates.len()
        invariant
            i <= templates.len(),
            all == entry_views(templates@),
            forall|j: int| 0 <= j < i ==> !(is_root_for(#[trigger] all[j], language) && eq_ignore_case(all[j].name, name@)),
        decreases templates.len() - i,
    {
        let t = &templates[i];
        if t.is_root && t.language == language {
            let other = chars_of(t.name.as_str());
            if eq_ignore_case_chars(&other, name) {
                assert(is_root_for(all[i as int], language) && eq_ignore_case(all[i as int].name, name@));
                return true;
            }
        }
        i += 1;
    }
    false
}

/// The entry of a new custom template, before its file is written and the
/// manifest saved: refused for a language other than Python and C++, for a
/// name that is empty once trimmed, and for a name that a root template of
/// the language already has (ignoring ASCII case); otherwise the entry that
/// `build_custom_template_entry` makes from the trimmed name and
/// description.
pub fn new_custom_template(
    templates: &Vec<AlgorithmTemplateEntry>,
    language: CodeLanguage,
    display_name: &str,
    description: &str,
) -> (r: Result<AlgorithmTemplateEntry, String>)
    requires
        templates@.len() < usize::MAX,
    ensures
        match r {
            Ok(e) => new_custom_template_result(entry_views(templates@), language, display_name@, description@)
                == Ok::<TemplateView, Seq<char>>(e@),
            Err(m) => new_custom_template_result(entry_views(templates@), language, display_name@, description@)
                == Err::<TemplateView, Seq<char>>(m@),
        },
{
    if !(language == CodeLanguage::Python || language == CodeLanguage::Cpp) {
        return Err("Custom templates are only supported for Python and C++.".to_owned());
    }
    let raw_name = chars_of(display_name);
    let name = crate::text::trim_chars(&raw_name);
    if name.len() == 0 {
        return Err("Template name is required.".to_owned());
    }
    if name_in_use(templates, language, &name) {
        let mut m: Vec<char> = chars_of("A template named '");
        push_chars(&mut m, &name);
        push_str(&mut m, "' already exists.");
        return Err(string_from_chars(&m));
    }
    let raw_description = chars_of(description);
    let trimmed_description = crate::text::trim_chars(&raw_description);
    let name_string = string_from_chars(&name);
    let description_string = string_from_chars(&trimmed_description);
    Ok(build_custom_template_entry(templates, language, name_string.as_str(), description_string.as_str()))
}

/// The file of a template's code in `language`, or the message given when
/// the template has none: "Template '<name>' does not define a <language>
/// file.".
pub fn template_code_path(template: &AlgorithmTemplateEntry, language: CodeLanguage) -> (r: Result<String, String>)
    ensures
        match r {
            Ok(p) => path_for_language_view(template@, language) == Some(p@),
            Err(m) => path_for_language_view(template@, language) is None && m@ == "Template '"@
                + template@.name + "' does not define a "@ + label_of(language) + " file."@,
        },
{
    match template.path_for_language(language) {
        Some(p) => Ok(p.to_owned()),
        None => {
            let mut m: Vec<char> = chars_of("Template '");
            push_str(&mut m, template.name.as_str());
            push_str(&mut m, "' does not define a ");
            push_str(&mut m, language_label(language));
            push_str(&mut m, " file.");
            Err(string_from_chars(&m))
        },
    }
}

/// Where the code of a custom template is saved: nowhere (`None`) for a
/// read-only template; its file in `language`; or, when it has none, the
/// message "Template '<name>' has no <language> file.".
pub fn custom_template_save_path(template: &AlgorithmTemplateEntry, language: CodeLanguage) -> (r: Result<
    Option<String>,
    String,
>)
    ensures
        match r {
            Ok(None) => !template@.editable || template@.builtin,
            Ok(Some(p)) => template@.editable && !template@.builtin && path_for_language_view(template@, language)
                == Some(p@),
            Err(m) => template@.editable && !template@.builtin && path_for_language_view(template@, language) is None
                && m@ == "Template '"@ + template@.name + "' has no "@ + label_of(language) + " file."@,
        },
{
    if template.is_read_only() {
        return Ok(None);
    }
    match template.path_for_language(language) {
        Some(p) => Ok(Some(p.to_owned())),
        None => {
            let mut m: Vec<char> = chars_of("Template '");
            push_str(&mut m, template.name.as_str());
            push_str(&mut m, "' has no ");
            push_str(&mut m, language_label(language));
            push_str(&mut m, " file.");
            Err(string_from_chars(&m))
        },
    }
}

/// A slug is never empty, holds only ASCII lower-case letters, digits and
/// underscores, neither starts nor ends with an underscore, and never has two
/// underscores in a row.
pub proof fn lemma_slug_shape(name: Seq<char>)
    ensures
        slug_of(name).len() > 0,
        forall|i: int| 0 <= i < slug_of(name).len() ==> slug_char(#[trigger] slug_of(name)[i]),
        slug_of(name)[0] != '_',
        slug_of(name).last() != '_',
        forall|i: int| 0 <= i < slug_of(name).len() - 1 ==> !(#[trigger] slug_of(name)[i] == '_' && slug_of(name)[i + 1] == '_'),
{
    lemma_slug_raw_shape(name);
    let r = slug_raw(name);
    let t = strip_char(r, '_');
    lemma_strip_underscores(r);
    if t.len() == 0 {
        let c = "custom_template"@;
        assert(c == seq!['c', 'u', 's', 't', 'o', 'm', '_', 't', 'e', 'm', 'p', 'l', 'a', 't', 'e']) by {
            reveal_strlit("custom_template");
        }
    }
}

/// A character a slug may hold.
pub open spec fn slug_char(c: char) -> bool {
    ('a' <= c <= 'z') || ('0' <= c <= '9') || c == '_'
}

proof fn lemma_slug_raw_shape(name: Seq<char>)
    ensures
        forall|i: int| 0 <= i < slug_raw(name).len() ==> slug_char(#[trigger] slug_raw(name)[i]),
        forall|i: int| 0 <= i < slug_raw(name).len() - 1 ==> !(#[trigger] slug_raw(name)[i] == '_' && slug_raw(name)[i + 1] == '_'),
    decreases name.len(),
{
    if name.len() > 0 {
        lemma_slug_raw_shape(name.drop_last());
        let r = slug_raw(name.drop_last());
        let c = ascii_lower(name.last());
        let out = slug_raw(name);
        assert forall|i: int| 0 <= i < out.len() implies slug_char(#[trigger] out[i]) by {
            if i < r.len() {
                assert(out[i] == r[i]);
            }
        }
        assert forall|i: int| 0 <= i < out.len() - 1 implies !(#[trigger] out[i] == '_' && out[i + 1] == '_') by {
            if i + 1 < r.len() {
                assert(out[i] == r[i] && out[i + 1] == r[i + 1]);
            }
        }
    }
}

proof fn lemma_strip_start_underscores(s: Seq<char>)
    ensures
        exists|k: int| 0 <= k <= s.len() && crate::text::strip_char_start(s, '_') == s.skip(k),
        crate::text::strip_char_start(s, '_').len() > 0 ==> crate::text::strip_char_start(s, '_')[0] != '_',
    decreases s.len(),
{
    if s.len() > 0 && s[0] == '_' {
        lemma_strip_start_underscores(s.drop_first());
        let k = choose|k: int| 0 <= k <= s.drop_first().len() && crate::text::strip_char_start(s.drop_first(), '_') == s.drop_first().skip(k);
        assert(s.drop_first().skip(k) == s.skip(k + 1));
    } else {
        assert(s.skip(0) == s);
    }
}

proof fn lemma_strip_end_underscores(s: Seq<char>)
    ensures
        exists|k: int| 0 <= k <= s.len() && crate::text::strip_char_end(s, '_') == s.take(k),
        crate::text::strip_char_end(s, '_').len() > 0 ==> crate::text::strip_char_end(s, '_').last() != '_',
    decreases s.len(),
{
    if s.len() > 0 && s.last() == '_' {
        lemma_strip_end_underscores(s.drop_last());
        let k = choose|k: int| 0 <= k <= s.drop_last().len() && crate::text::strip_char_end(s.drop_last(), '_') == s.drop_last().take(k);
        assert(s.drop_last().take(k) == s.take(k));
    } else {
        assert(s.take(s.len() as int) == s);
    }
}

/// Removing the outer underscores keeps a contiguous piece of the slug and
/// leaves no underscore at either end.
proof fn lemma_strip_underscores(r: Seq<char>)
    ensures
        exists|a: int, b: int| 0 <= a <= b <= r.len() && strip_char(r, '_') == r.subrange(a, b),
        strip_char(r, '_').len() > 0 ==> strip_char(r, '_')[0] != '_' && strip_char(r, '_').last() != '_',
{
    lemma_strip_start_underscores(r);
    let s1 = crate::text::strip_char_start(r, '_');
    let a = choose|k: int| 0 <= k <= r.len() && s1 == r.skip(k);
    lemma_strip_end_underscores(s1);
    let b = choose|k: int| 0 <= k <= s1.len() && crate::text::strip_char_end(s1, '_') == s1.take(k);
    assert(r.skip(a).take(b) == r.subrange(a, a + b));
    let t = strip_char(r, '_');
    if t.len() > 0 {
        assert(t[0] == s1[0]);
        if s1[0] == '_' {
            assert(s1.len() > 0);
        }
    }
}

proof fn lemma_first_match_at_most(s: Seq<TemplateView>, p: spec_fn(TemplateView) -> bool, j: int)
    requires
        0 <= j < s.len(),
        p(s[j]),
    ensures
        first_match(s, p) <= j,
{
    lemma_first_match_bounds(s, p);
}

/// The default template of Python or of C++ is always a root template of
/// that language, whatever list of templates it is chosen from.
pub proof fn lemma_default_root_is_root(s: Seq<TemplateView>, language: CodeLanguage)
    requires
        supports_custom(language),
    ensures
        is_root_for(default_root_view(s, language), language),
{
    let pb = |v: TemplateView| is_blank_root_for(v, language);
    let pr = |v: TemplateView| is_root_for(v, language);
    lemma_first_match_bounds(s, pb);
    lemma_first_match_bounds(s, pr);
    let f = fallback_views();
    lemma_first_match_bounds(f, pr);
    if language == CodeLanguage::Python {
        assert(pr(f[0]));
        lemma_first_match_at_most(f, pr, 0);
    } else {
        assert(pr(f[1]));
        lemma_first_match_at_most(f, pr, 1);
    }
}

/// Built-in templates are read only; a new custom template is editable and
/// not built in.
pub proof fn lemma_builtin_read_only(s: Seq<TemplateView>, language: CodeLanguage, name: Seq<char>, description: Seq<char>)
    ensures
        forall|i: int| 0 <= i < fallback_views().len() ==> (#[trigger] fallback_views()[i]).builtin && !fallback_views()[i].editable,
        custom_entry_view(s, language, name, description).editable,
        !custom_entry_view(s, language, name, description).builtin,
{
}

proof fn lemma_roots_for(s: Seq<TemplateView>, language: CodeLanguage)
    ensures
        forall|i: int| 0 <= i < roots_for(s, language).len() ==> is_root_for(#[trigger] roots_for(s, language)[i], language),
    decreases s.len(),
{
    if s.len() > 0 {
        lemma_roots_for(s.drop_last(), language);
        let r = roots_for(s.drop_last(), language);
        assert forall|i: int| 0 <= i < roots_for(s, language).len() implies is_root_for(
            #[trigger] roots_for(s, language)[i],
            language,
        ) by {
            if i < r.len() {
                assert(roots_for(s, language)[i] == r[i]);
            }
        }
    }
}

/// The templates offered for a language are its root templates, followed by
/// the "create new" entry for Python and C++: node templates and templates of
/// other languages are never offered.
pub proof fn lemma_offered_templates(s: Seq<TemplateView>, language: CodeLanguage)
    ensures
        forall|i: int|
            0 <= i < offered_templates(s, language).len() ==> is_root_for(#[trigger] offered_templates(s, language)[i], language),
        supports_custom(language) ==> is_create_new_view(offered_templates(s, language).last()),
{
    lemma_roots_for(s, language);
    let r = roots_for(s, language);
    if supports_custom(language) {
        assert forall|i: int| 0 <= i < offered_templates(s, language).len() implies is_root_for(
            #[trigger] offered_templates(s, language)[i],
            language,
        ) by {
            if i < r.len() {
                assert(offered_templates(s, language)[i] == r[i]);
            }
        }
    }
}

} // verus!
