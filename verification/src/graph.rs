//! The code graph: symbols, references, edges and the facts of one file.

use vstd::prelude::*;
use vstd::string::*;
use crate::ordering::Keyed;
use crate::text::{chars_of, push_text_key, same_text, text_field_compares_first, text_key};

verus! {

/// A source language.
#[derive(Debug, Clone, Copy, PartialEq, Eq, Hash, Structural)]
pub enum Language {
    Rust,
    Python,
    TypeScript,
    JavaScript,
    Go,
    Sql,
}

impl Language {
    /// The canonical tag.
    pub open spec fn tag(self) -> Seq<char> {
        match self {
            Language::Rust => "rust"@,
            Language::Python => "python"@,
            Language::TypeScript => "typescript"@,
            Language::JavaScript => "javascript"@,
            Language::Go => "go"@,
            Language::Sql => "sql"@,
        }
    }

    /// The canonical tag.
    pub fn as_str(self) -> (r: &'static str)
        ensures
            r@ == self.tag(),
    {
        match self {
            Language::Rust => "rust",
            Language::Python => "python",
            Language::TypeScript => "typescript",
            Language::JavaScript => "javascript",
            Language::Go => "go",
            Language::Sql => "sql",
        }
    }

    /// The language whose canonical tag is `tag`.
    pub fn from_tag(tag: &str) -> (r: Option<Language>)
        ensures
            match r {
                Some(language) => language.tag() == tag@,
                None => forall|language: Language| language.tag() != tag@,
            },
    {
        if same_text(tag, "rust") {
            Some(Language::Rust)
        } else if same_text(tag, "python") {
            Some(Language::Python)
        } else if same_text(tag, "typescript") {
            Some(Language::TypeScript)
        } else if same_text(tag, "javascript") {
            Some(Language::JavaScript)
        } else if same_text(tag, "go") {
            Some(Language::Go)
        } else if same_text(tag, "sql") {
            Some(Language::Sql)
        } else {
            None
        }
    }
}

/// The last position of a character.
pub open spec fn last_position(s: Seq<char>, c: char) -> Option<int>
    decreases s.len(),
{
    if s.len() == 0 {
        None
    } else if s.last() == c {
        Some(s.len() - 1)
    } else {
        last_position(s.drop_last(), c)
    }
}

/// What follows the last slash of a path.
pub open spec fn base_name(s: Seq<char>) -> Seq<char> {
    match last_position(s, '/') {
        Some(p) => s.skip(p + 1),
        None => s,
    }
}

/// The extension of a path: what follows the last full stop of its last name,
/// unless the name begins with that full stop.
pub open spec fn extension(s: Seq<char>) -> Option<Seq<char>> {
    let name = base_name(s);
    match last_position(name, '.') {
        Some(p) => if p > 0 {
            Some(name.skip(p + 1))
        } else {
            None
        },
        None => None,
    }
}

/// The language that files with an extension are written in.
pub open spec fn extension_language(e: Seq<char>) -> Option<Language> {
    if e == "rs"@ {
        Some(Language::Rust)
    } else if e == "py"@ {
        Some(Language::Python)
    } else if e == "ts"@ || e == "tsx"@ {
        Some(Language::TypeScript)
    } else if e == "js"@ || e == "jsx"@ || e == "mjs"@ {
        Some(Language::JavaScript)
    } else if e == "go"@ {
        Some(Language::Go)
    } else if e == "sql"@ {
        Some(Language::Sql)
    } else {
        None
    }
}

/// The language of a path, by its extension.
pub open spec fn path_language(s: Seq<char>) -> Option<Language> {
    match extension(s) {
        Some(e) => extension_language(e),
        None => None,
    }
}

/// The last position of a character at or behind `from`, counted from `from`.
fn find_last(v: &Vec<char>, from: usize, c: char) -> (r: Option<usize>)
    requires
        from <= v@.len(),
    ensures
        match r {
            Some(p) => last_position(v@.skip(from as int), c) == Some(p as int) && from + p < v.len(),
            None => last_position(v@.skip(from as int), c) is None,
        },
{
    let ghost s = v@.skip(from as int);
    let mut end = v.len();
    assert(s.take(s.len() as int) =~= s);
    while end > from
        invariant
            from <= end <= v.len(),
            s == v@.skip(from as int),
            last_position(s, c) == last_position(s.take(end - from), c),
        decreases end,
    {
        assert(s.take(end - from).last() == v@[end - 1]);
        if v[end - 1] == c {
            return Some(end - 1 - from);
        }
        assert(s.take(end - from).drop_last() =~= s.take(end - from - 1));
        end -= 1;
    }
    None
}

impl Language {
    /// The language of a path, by its extension.
    pub fn from_path(path: &str) -> (r: Option<Language>)
        ensures
            r == path_language(path@),
    {
        let v = chars_of(path);
        let start: usize = match find_last(&v, 0, '/') {
            Some(p) => p + 1,
            None => 0,
        };
        proof {
            assert(v@.skip(0) =~= v@);
        }
        assert(base_name(path@) =~= v@.skip(start as int));
        match find_last(&v, start, '.') {
            Some(p) => {
                if p == 0 {
                    return None;
                }
                let ext = path.substring_char(start + p + 1, v.len());
                assert(ext@ =~= base_name(path@).skip(p as int + 1));
                if same_text(ext, "rs") {
                    Some(Language::Rust)
                } else if same_text(ext, "py") {
                    Some(Language::Python)
                } else if same_text(ext, "ts") || same_text(ext, "tsx") {
                    Some(Language::TypeScript)
                } else if same_text(ext, "js") || same_text(ext, "jsx") || same_text(ext, "mjs") {
                    Some(Language::JavaScript)
                } else if same_text(ext, "go") {
                    Some(Language::Go)
                } else if same_text(ext, "sql") {
                    Some(Language::Sql)
                } else {
                    None
                }
            },
            None => None,
        }
    }
}

/// A tag names one language.
pub proof fn language_tags_are_distinct(a: Language, b: Language)
    ensures
        a.tag() == b.tag() ==> a == b,
{
    reveal_strlit("rust");
    reveal_strlit("python");
    reveal_strlit("typescript");
    reveal_strlit("javascript");
    reveal_strlit("go");
    reveal_strlit("sql");
    let x = a.tag();
    let y = b.tag();
    if x == y {
        assert(x.len() == y.len());
        assert(x[0] == y[0]);
    }
}

/// Package coordinates.
#[derive(Debug, Clone, PartialEq, Eq, PartialOrd, Ord, Hash)]
pub struct Package {
    pub manager: String,
    pub name: String,
    pub version: String,
}

/// The texts of package coordinates.
pub struct PackageView {
    pub manager: Seq<char>,
    pub name: Seq<char>,
    pub version: Seq<char>,
}

impl Package {
    /// The texts.
    pub open spec fn view(self) -> PackageView {
        PackageView { manager: self.manager@, name: self.name@, version: self.version@ }
    }

    /// A copy.
    pub fn copied(&self) -> (r: Self)
        ensures
            r == *self,
    {
        Package {
            manager: self.manager.clone(),
            name: self.name.clone(),
            version: self.version.clone(),
        }
    }
}

/// One step of a symbol's descriptor path.
#[derive(Debug, Clone, PartialEq, Eq, PartialOrd, Ord, Hash)]
pub enum Descriptor {
    Namespace(String),
    Type(String),
    Term(String),
    Method(String),
}

/// The kind and the name of a descriptor.
pub struct DescriptorView {
    pub kind: u64,
    pub name: Seq<char>,
}

impl Descriptor {
    /// The kind and the name.
    pub open spec fn view(self) -> DescriptorView {
        match self {
            Descriptor::Namespace(name) => DescriptorView { kind: 1, name: name@ },
            Descriptor::Type(name) => DescriptorView { kind: 2, name: name@ },
            Descriptor::Term(name) => DescriptorView { kind: 3, name: name@ },
            Descriptor::Method(name) => DescriptorView { kind: 4, name: name@ },
        }
    }

    /// A copy.
    pub fn copied(&self) -> (r: Self)
        ensures
            r == *self,
    {
        match self {
            Descriptor::Namespace(name) => Descriptor::Namespace(name.clone()),
            Descriptor::Type(name) => Descriptor::Type(name.clone()),
            Descriptor::Term(name) => Descriptor::Term(name.clone()),
            Descriptor::Method(name) => Descriptor::Method(name.clone()),
        }
    }
}

/// The lossless structural identity of a symbol.
#[derive(Debug, Clone, PartialEq, Eq, PartialOrd, Ord, Hash)]
pub enum SymbolId {
    /// A symbol that other files can name.
    Global { language: String, package: Option<Package>, descriptors: Vec<Descriptor> },
    /// A symbol of one file.
    Local { file: String, id: String },
}

/// The texts of a structural identity.
pub enum IdView {
    Global {
        language: Seq<char>,
        package: Option<PackageView>,
        descriptors: Seq<DescriptorView>,
    },
    Local { file: Seq<char>, id: Seq<char> },
}

/// The texts of a descriptor path.
pub open spec fn descriptor_views(d: Seq<Descriptor>) -> Seq<DescriptorView> {
    d.map_values(|x: Descriptor| x@)
}

/// The key of an optional package.
pub open spec fn package_key(p: Option<PackageView>) -> Seq<u64> {
    match p {
        None => seq![0],
        Some(x) => seq![1] + (text_key(x.manager) + (text_key(x.name) + text_key(x.version))),
    }
}

/// The key of a descriptor path: each step with its kind, and a closing zero.
pub open spec fn descriptors_key(d: Seq<DescriptorView>) -> Seq<u64>
    decreases d.len(),
{
    if d.len() == 0 {
        seq![0]
    } else {
        seq![d[0].kind] + (text_key(d[0].name) + descriptors_key(d.drop_first()))
    }
}

/// The key of a structural identity.
pub open spec fn id_key(id: IdView) -> Seq<u64> {
    match id {
        IdView::Global { language, package, descriptors } => seq![0] + (text_key(language) + (
        package_key(package) + descriptors_key(descriptors))),
        IdView::Local { file, id } => seq![1] + (text_key(file) + text_key(id)),
    }
}

/// Every step of the path is one of the four kinds.
pub open spec fn kinds_ok(d: Seq<DescriptorView>) -> bool {
    forall|i: int| 0 <= i < d.len() ==> (#[trigger] d[i]).kind > 0
}

/// Keys of fields split the same way: a self-delimiting field is determined by
/// the key that begins with it.
pub(crate) proof fn lemma_text_key_splits(a: Seq<char>, b: Seq<char>, x: Seq<u64>, y: Seq<u64>)
    requires
        text_key(a) + x == text_key(b) + y,
    ensures
        a == b,
        x == y,
{
    crate::ordering::key_order_is_total(text_key(a) + x, text_key(b) + y);
    text_field_compares_first(a, b, x, y);
    text_field_compares_first(b, a, y, x);
    if a != b {
        crate::text::text_order_is_total(a, b);
    }
    assert(x =~= (text_key(a) + x).skip(text_key(a).len() as int));
    assert(y =~= (text_key(b) + y).skip(text_key(b).len() as int));
}

pub(crate) proof fn lemma_head_splits(a: u64, b: u64, x: Seq<u64>, y: Seq<u64>)
    requires
        seq![a] + x == seq![b] + y,
    ensures
        a == b,
        x == y,
{
    assert((seq![a] + x)[0] == a);
    assert((seq![b] + y)[0] == b);
    assert(x =~= (seq![a] + x).skip(1));
    assert(y =~= (seq![b] + y).skip(1));
}

pub(crate) proof fn lemma_package_key_splits(
    a: Option<PackageView>,
    b: Option<PackageView>,
    x: Seq<u64>,
    y: Seq<u64>,
)
    requires
        package_key(a) + x == package_key(b) + y,
    ensures
        a == b,
        x == y,
{
    let ra = package_key(a).drop_first() + x;
    let rb = package_key(b).drop_first() + y;
    assert(package_key(a) + x =~= seq![package_key(a)[0]] + ra);
    assert(package_key(b) + y =~= seq![package_key(b)[0]] + rb);
    lemma_head_splits(package_key(a)[0], package_key(b)[0], ra, rb);
    match (a, b) {
        (Some(p), Some(q)) => {
            assert(ra =~= text_key(p.manager) + (text_key(p.name) + (text_key(p.version) + x)));
            assert(rb =~= text_key(q.manager) + (text_key(q.name) + (text_key(q.version) + y)));
            lemma_text_key_splits(
                p.manager,
                q.manager,
                text_key(p.name) + (text_key(p.version) + x),
                text_key(q.name) + (text_key(q.version) + y),
            );
            lemma_text_key_splits(p.name, q.name, text_key(p.version) + x, text_key(q.version) + y);
            lemma_text_key_splits(p.version, q.version, x, y);
        },
        (None, None) => {
            assert(ra =~= x);
            assert(rb =~= y);
        },
        _ => {},
    }
}

proof fn lemma_descriptors_key_injective(a: Seq<DescriptorView>, b: Seq<DescriptorView>)
    requires
        kinds_ok(a),
        kinds_ok(b),
        descriptors_key(a) == descriptors_key(b),
    ensures
        a == b,
    decreases a.len(),
{
    if a.len() == 0 && b.len() == 0 {
        assert(a =~= b);
    } else if a.len() == 0 {
        assert(descriptors_key(a)[0] == 0);
        assert(descriptors_key(b)[0] == b[0].kind);
    } else if b.len() == 0 {
        assert(descriptors_key(b)[0] == 0);
        assert(descriptors_key(a)[0] == a[0].kind);
    } else {
        let x = a.drop_first();
        let y = b.drop_first();
        lemma_head_splits(
            a[0].kind,
            b[0].kind,
            text_key(a[0].name) + descriptors_key(x),
            text_key(b[0].name) + descriptors_key(y),
        );
        lemma_text_key_splits(a[0].name, b[0].name, descriptors_key(x), descriptors_key(y));
        assert(kinds_ok(x)) by {
            assert forall|i: int| 0 <= i < x.len() implies (#[trigger] x[i]).kind > 0 by {
                assert(a[i + 1].kind > 0);
            }
        }
        assert(kinds_ok(y)) by {
            assert forall|i: int| 0 <= i < y.len() implies (#[trigger] y[i]).kind > 0 by {
                assert(b[i + 1].kind > 0);
            }
        }
        lemma_descriptors_key_injective(x, y);
        assert(a =~= seq![a[0]] + x);
        assert(b =~= seq![b[0]] + y);
    }
}

/// An identity has only descriptors of the four kinds.
pub open spec fn id_ok(id: IdView) -> bool {
    id matches IdView::Global { descriptors, .. } ==> kinds_ok(descriptors)
}

/// Identities with the same key are the same identity: language, package, path
/// and file are all told apart.
pub proof fn id_key_is_lossless(a: IdView, b: IdView)
    requires
        id_ok(a),
        id_ok(b),
        id_key(a) == id_key(b),
    ensures
        a == b,
{
    match (a, b) {
        (
            IdView::Global { language: l1, package: p1, descriptors: d1 },
            IdView::Global { language: l2, package: p2, descriptors: d2 },
        ) => {
            lemma_head_splits(
                0,
                0,
                text_key(l1) + (package_key(p1) + descriptors_key(d1)),
                text_key(l2) + (package_key(p2) + descriptors_key(d2)),
            );
            lemma_text_key_splits(
                l1,
                l2,
                package_key(p1) + descriptors_key(d1),
                package_key(p2) + descriptors_key(d2),
            );
            lemma_package_key_splits(p1, p2, descriptors_key(d1), descriptors_key(d2));
            lemma_descriptors_key_injective(d1, d2);
        },
        (IdView::Local { file: f1, id: i1 }, IdView::Local { file: f2, id: i2 }) => {
            lemma_head_splits(1, 1, text_key(f1) + text_key(i1), text_key(f2) + text_key(i2));
            lemma_text_key_splits(f1, f2, text_key(i1), text_key(i2));
            text_field_compares_first(i1, i2, Seq::empty(), Seq::empty());
        },
        (IdView::Global { .. }, IdView::Local { .. }) => {
            assert(id_key(a)[0] == 0);
            assert(id_key(b)[0] == 1);
        },
        (IdView::Local { .. }, IdView::Global { .. }) => {
            assert(id_key(a)[0] == 1);
            assert(id_key(b)[0] == 0);
        },
    }
}

/// The display form of a descriptor.
pub open spec fn descriptor_display(d: DescriptorView) -> Seq<char> {
    if d.kind == 1 {
        d.name + "/"@
    } else if d.kind == 2 {
        d.name + "#"@
    } else if d.kind == 3 {
        d.name + "."@
    } else {
        d.name + "()."@
    }
}

/// The display form of a descriptor path.
pub open spec fn path_display(d: Seq<DescriptorView>) -> Seq<char>
    decreases d.len(),
{
    if d.len() == 0 {
        Seq::empty()
    } else {
        path_display(d.drop_last()) + descriptor_display(d.last())
    }
}

/// An empty coordinate is displayed as a full stop.
pub open spec fn coordinate(s: Seq<char>) -> Seq<char> {
    if s.len() == 0 {
        "."@
    } else {
        s
    }
}

/// The SCIP-aligned display form of an identity.
pub open spec fn id_display(id: IdView) -> Seq<char> {
    match id {
        IdView::Global { package, descriptors, .. } => {
            let coordinates = match package {
                None => ". . . "@,
                Some(p) => coordinate(p.manager) + " "@ + coordinate(p.name) + " "@ + coordinate(
                    p.version,
                ) + " "@,
            };
            "codegraph "@ + coordinates + path_display(descriptors)
        },
        IdView::Local { id, .. } => "local "@ + id,
    }
}

fn push_coordinate(out: &mut String, s: &str)
    ensures
        final(out)@ == old(out)@ + coordinate(s@) + " "@,
{
    if s.is_empty() {
        out.append(".");
    } else {
        out.append(s);
    }
    out.append(" ");
}

impl SymbolId {
    /// The texts of the identity.
    pub open spec fn view(self) -> IdView {
        match self {
            SymbolId::Global { language, package, descriptors } => IdView::Global {
                language: language@,
                package: match package {
                    Some(p) => Some(p@),
                    None => None,
                },
                descriptors: descriptor_views(descriptors@),
            },
            SymbolId::Local { file, id } => IdView::Local { file: file@, id: id@ },
        }
    }

    /// A global symbol that belongs to no package yet.
    pub fn global(language: &str, descriptors: Vec<Descriptor>) -> (r: SymbolId)
        ensures
            r@ == (IdView::Global {
                language: language@,
                package: None,
                descriptors: descriptor_views(descriptors@),
            }),
    {
        SymbolId::Global { language: language.to_owned(), package: None, descriptors }
    }

    /// A symbol of one file.
    pub fn local(file: &str, id: &str) -> (r: SymbolId)
        ensures
            r@ == (IdView::Local { file: file@, id: id@ }),
    {
        SymbolId::Local { file: file.to_owned(), id: id.to_owned() }
    }

    /// A copy.
    pub fn copied(&self) -> (r: SymbolId)
        ensures
            r@ == self@,
    {
        match self {
            SymbolId::Global { language, package, descriptors } => {
                let mut path: Vec<Descriptor> = Vec::new();
                let mut i: usize = 0;
                while i < descriptors.len()
                    invariant
                        i <= descriptors.len(),
                        path@ == descriptors@.take(i as int),
                    decreases descriptors.len() - i,
                {
                    path.push(descriptors[i].copied());
                    i += 1;
                    assert(path@ =~= descriptors@.take(i as int));
                }
                assert(path@ =~= descriptors@);
                let package = match package {
                    Some(p) => Some(p.copied()),
                    None => None,
                };
                SymbolId::Global { language: language.clone(), package, descriptors: path }
            },
            SymbolId::Local { file, id } => SymbolId::Local { file: file.clone(), id: id.clone() },
        }
    }

    /// Tells whether two identities are the same.
    pub fn same(&self, other: &SymbolId) -> (r: bool)
        ensures
            r == (self@ == other@),
    {
        let a = self.sort_key();
        let b = other.sort_key();
        let r = a == b;
        proof {
            lemma_id_ok(*self);
            lemma_id_ok(*other);
            if a@ =~= b@ {
                id_key_is_lossless(self@, other@);
            }
        }
        r
    }

    /// The SCIP-aligned display form.
    pub fn to_scip_string(&self) -> (r: String)
        ensures
            r@ == id_display(self@),
    {
        match self {
            SymbolId::Global { language: _, package, descriptors } => {
                let mut out = "codegraph ".to_owned();
                match package {
                    None => out.append(". . . "),
                    Some(p) => {
                        push_coordinate(&mut out, p.manager.as_str());
                        push_coordinate(&mut out, p.name.as_str());
                        push_coordinate(&mut out, p.version.as_str());
                    },
                }
                let ghost start = out@;
                let ghost views = descriptor_views(descriptors@);
                let mut i: usize = 0;
                assert(views.take(0) =~= Seq::<DescriptorView>::empty());
                assert(start + path_display(views.take(0)) =~= start);
                while i < descriptors.len()
                    invariant
                        i <= descriptors.len(),
                        views == descriptor_views(descriptors@),
                        out@ == start + path_display(views.take(i as int)),
                    decreases descriptors.len() - i,
                {
                    assert(views.take(i as int + 1).drop_last() =~= views.take(i as int));
                    assert(views.take(i as int + 1).last() == descriptors@[i as int]@);
                    let ghost before = out@;
                    match &descriptors[i] {
                        Descriptor::Namespace(name) => {
                            out.append(name.as_str());
                            out.append("/");
                        },
                        Descriptor::Type(name) => {
                            out.append(name.as_str());
                            out.append("#");
                        },
                        Descriptor::Term(name) => {
                            out.append(name.as_str());
                            out.append(".");
                        },
                        Descriptor::Method(name) => {
                            out.append(name.as_str());
                            out.append("().");
                        },
                    }
                    assert(out@ =~= before + descriptor_display(descriptors@[i as int]@));
                    i += 1;
                    assert(out@ =~= start + path_display(views.take(i as int)));
                }
                assert(views.take(views.len() as int) =~= views);
                proof {
                    match self@ {
                        IdView::Global { package: Some(p), .. } => {
                            assert(start =~= "codegraph "@ + (coordinate(p.manager) + " "@
                                + coordinate(p.name) + " "@ + coordinate(p.version) + " "@));
                        },
                        _ => {},
                    }
                }
                out
            },
            SymbolId::Local { file: _, id } => {
                let mut out = "local ".to_owned();
                out.append(id.as_str());
                out
            },
        }
    }
}

pub(crate) proof fn lemma_id_ok(id: SymbolId)
    ensures
        id_ok(id@),
{
    match id {
        SymbolId::Global { descriptors, .. } => {
            let d = descriptor_views(descriptors@);
            assert forall|i: int| 0 <= i < d.len() implies (#[trigger] d[i]).kind > 0 by {
                assert(d[i] == descriptors@[i]@);
            }
        },
        _ => {},
    }
}

fn push_descriptors_key(out: &mut Vec<u64>, d: &Vec<Descriptor>, from: usize)
    requires
        from <= d@.len(),
    ensures
        final(out)@ == old(out)@ + descriptors_key(descriptor_views(d@).skip(from as int)),
    decreases d@.len() - from,
{
    let ghost start = out@;
    let ghost views = descriptor_views(d@);
    let ghost rest = views.skip(from as int);
    if from < d.len() {
        assert(rest[0] == d@[from as int]@);
        assert(rest.drop_first() =~= views.skip(from as int + 1));
        match &d[from] {
            Descriptor::Namespace(name) => {
                out.push(1);
                push_text_key(out, name.as_str());
            },
            Descriptor::Type(name) => {
                out.push(2);
                push_text_key(out, name.as_str());
            },
            Descriptor::Term(name) => {
                out.push(3);
                push_text_key(out, name.as_str());
            },
            Descriptor::Method(name) => {
                out.push(4);
                push_text_key(out, name.as_str());
            },
        }
        push_descriptors_key(out, d, from + 1);
        assert(out@ =~= start + descriptors_key(rest));
    } else {
        out.push(0);
        assert(out@ =~= start + descriptors_key(rest));
    }
}

/// Appends the key of an identity.
pub fn push_id_key(out: &mut Vec<u64>, id: &SymbolId)
    ensures
        final(out)@ == old(out)@ + id_key(id@),
{
    let ghost start = out@;
    match id {
        SymbolId::Global { language, package, descriptors } => {
            out.push(0);
            push_text_key(out, language.as_str());
            match package {
                None => out.push(0),
                Some(p) => {
                    out.push(1);
                    push_text_key(out, p.manager.as_str());
                    push_text_key(out, p.name.as_str());
                    push_text_key(out, p.version.as_str());
                },
            }
            push_descriptors_key(out, descriptors, 0);
            assert(descriptor_views(descriptors@).skip(0) =~= descriptor_views(descriptors@));
            assert(out@ =~= start + id_key(id@));
        },
        SymbolId::Local { file, id: local } => {
            out.push(1);
            push_text_key(out, file.as_str());
            push_text_key(out, local.as_str());
            assert(out@ =~= start + id_key(id@));
        },
    }
}

impl Keyed for SymbolId {
    open spec fn key(&self) -> Seq<u64> {
        id_key(self@)
    }

    fn sort_key(&self) -> (k: Vec<u64>) {
        let mut k: Vec<u64> = Vec::new();
        push_id_key(&mut k, self);
        assert(k@ =~= self.key());
        k
    }
}

/// The kind of a definition.
#[derive(Debug, Clone, Copy, PartialEq, Eq, Structural)]
pub enum SymbolKind {
    Function,
    Method,
    Struct,
    Enum,
    Trait,
    Interface,
    Class,
    TypeAlias,
    Const,
    Static,
    Module,
    Impl,
    Table,
    View,
    Column,
    Resource,
    Other,
}

/// Who can see a definition.
#[derive(Debug, Clone, Copy, PartialEq, Eq, Structural)]
pub enum Visibility {
    Public,
    Private,
}

/// A reason why a definition can be reached from outside the code.
#[derive(Debug, Clone, PartialEq, Eq)]
pub struct EntryPoint {
    pub label: String,
}

/// A half-open range of bytes.
#[derive(Debug, Clone, Copy, PartialEq, Eq, Structural)]
pub struct ByteSpan {
    pub start: usize,
    pub end: usize,
}

/// A definition.
#[derive(Debug, Clone, PartialEq, Eq)]
pub struct Symbol {
    pub id: SymbolId,
    pub name: String,
    pub kind: SymbolKind,
    pub visibility: Visibility,
    pub entry_points: Vec<EntryPoint>,
    pub file: String,
    pub line: u32,
    pub span: ByteSpan,
    pub signature: String,
}

/// The role of a reference.
#[derive(Debug, Clone, Copy, PartialEq, Eq, PartialOrd, Ord, Structural)]
pub enum RefRole {
    Call,
    IsImplementation,
    Import,
    ModuleRef,
    TypeRef,
    Read,
    Write,
}

impl RefRole {
    /// The place of the role among the roles.
    pub open spec fn rank(self) -> u64 {
        match self {
            RefRole::Call => 0,
            RefRole::IsImplementation => 1,
            RefRole::Import => 2,
            RefRole::ModuleRef => 3,
            RefRole::TypeRef => 4,
            RefRole::Read => 5,
            RefRole::Write => 6,
        }
    }

    /// The place of the role among the roles.
    pub fn order(self) -> (r: u64)
        ensures
            r == self.rank(),
    {
        match self {
            RefRole::Call => 0,
            RefRole::IsImplementation => 1,
            RefRole::Import => 2,
            RefRole::ModuleRef => 3,
            RefRole::TypeRef => 4,
            RefRole::Read => 5,
            RefRole::Write => 6,
        }
    }
}

/// How sure a resolution is, from the least to the most sure.
#[derive(Debug, Clone, Copy, PartialEq, Eq, PartialOrd, Ord, Structural)]
pub enum Confidence {
    Heuristic,
    NameOnly,
    Scoped,
    Exact,
}

impl Confidence {
    /// The place of the confidence on the scale.
    pub open spec fn rank(self) -> u64 {
        match self {
            Confidence::Heuristic => 0,
            Confidence::NameOnly => 1,
            Confidence::Scoped => 2,
            Confidence::Exact => 3,
        }
    }

    /// Tells whether the confidence is at least `floor`.
    pub fn at_least(self, floor: Confidence) -> (r: bool)
        ensures
            r == (self.rank() >= floor.rank()),
    {
        self.order() >= floor.order()
    }

    fn order(self) -> (r: u64)
        ensures
            r == self.rank(),
    {
        match self {
            Confidence::Heuristic => 0,
            Confidence::NameOnly => 1,
            Confidence::Scoped => 2,
            Confidence::Exact => 3,
        }
    }
}

/// Which resolver produced an edge.
#[derive(Debug, Clone, Copy, PartialEq, Eq, PartialOrd, Ord, Structural)]
pub enum Provenance {
    SymbolTable,
    ScopeGraph,
    FfiBridge,
    Conformance,
    NormalizedName,
    External,
}

impl Provenance {
    /// The place of the provenance among the provenances.
    pub open spec fn rank(self) -> u64 {
        match self {
            Provenance::SymbolTable => 0,
            Provenance::ScopeGraph => 1,
            Provenance::FfiBridge => 2,
            Provenance::Conformance => 3,
            Provenance::NormalizedName => 4,
            Provenance::External => 5,
        }
    }

    /// The place of the provenance among the provenances.
    pub fn order(self) -> (r: u64)
        ensures
            r == self.rank(),
    {
        match self {
            Provenance::SymbolTable => 0,
            Provenance::ScopeGraph => 1,
            Provenance::FfiBridge => 2,
            Provenance::Conformance => 3,
            Provenance::NormalizedName => 4,
            Provenance::External => 5,
        }
    }
}

/// The position of a type in the code around it.
#[derive(Debug, Clone, Copy, PartialEq, Eq, Structural)]
pub enum TypeRefContext {
    ParameterType,
    ReturnType,
    Field,
    GenericArg,
    Attribute,
    Other,
}

/// A place in a source file. Lines count from one, columns and bytes from zero.
#[derive(Debug, Clone, PartialEq, Eq)]
pub struct Occurrence {
    pub file: String,
    pub line: u32,
    pub col: u32,
    pub byte: usize,
}

/// A place in a source file.
pub struct OccurrenceView {
    pub file: Seq<char>,
    pub line: u32,
    pub col: u32,
    pub byte: usize,
}

impl Occurrence {
    /// The place.
    pub open spec fn view(self) -> OccurrenceView {
        OccurrenceView { file: self.file@, line: self.line, col: self.col, byte: self.byte }
    }
}

/// A resolved relation between two symbols.
#[derive(Debug, Clone, PartialEq, Eq)]
pub struct Edge {
    pub from: SymbolId,
    pub to: SymbolId,
    pub role: RefRole,
    pub confidence: Confidence,
    pub provenance: Provenance,
    pub occ: Occurrence,
}

/// A resolved relation between two symbols.
pub struct EdgeView {
    pub from: IdView,
    pub to: IdView,
    pub role: RefRole,
    pub confidence: Confidence,
    pub provenance: Provenance,
    pub occ: OccurrenceView,
}

/// The key of an edge: all of its structural evidence, which leaves out only its
/// confidence.
pub open spec fn edge_key(e: EdgeView) -> Seq<u64> {
    id_key(e.from) + (id_key(e.to) + (seq![e.role.rank()] + (text_key(e.occ.file) + seq![
        e.occ.line as u64,
        e.occ.col as u64,
        e.occ.byte as u64,
        e.provenance.rank(),
    ])))
}

impl Edge {
    /// The relation.
    pub open spec fn view(self) -> EdgeView {
        EdgeView {
            from: self.from@,
            to: self.to@,
            role: self.role,
            confidence: self.confidence,
            provenance: self.provenance,
            occ: self.occ@,
        }
    }

    /// A copy.
    pub fn copied(&self) -> (r: Self)
        ensures
            r@ == self@,
    {
        Edge {
            from: self.from.copied(),
            to: self.to.copied(),
            role: self.role,
            confidence: self.confidence,
            provenance: self.provenance,
            occ: Occurrence {
                file: self.occ.file.clone(),
                line: self.occ.line,
                col: self.occ.col,
                byte: self.occ.byte,
            },
        }
    }
}

impl Keyed for Edge {
    open spec fn key(&self) -> Seq<u64> {
        edge_key(self@)
    }

    fn sort_key(&self) -> (k: Vec<u64>) {
        let mut k: Vec<u64> = Vec::new();
        push_id_key(&mut k, &self.from);
        push_id_key(&mut k, &self.to);
        k.push(self.role.order());
        push_text_key(&mut k, self.occ.file.as_str());
        k.push(self.occ.line as u64);
        k.push(self.occ.col as u64);
        k.push(self.occ.byte as u64);
        k.push(self.provenance.order());
        assert(k@ =~= self.key());
        k
    }
}

impl<'a> Keyed for &'a Edge {
    open spec fn key(&self) -> Seq<u64> {
        edge_key((**self)@)
    }

    fn sort_key(&self) -> (k: Vec<u64>) {
        (*self).sort_key()
    }
}

/// A reference as it was extracted, resolved or not.
#[derive(Debug, Clone, PartialEq, Eq)]
pub struct Reference {
    pub name: String,
    pub occ: Occurrence,
    pub role: RefRole,
    pub source_module: Option<String>,
    pub from_path: Option<String>,
    pub qualifier: Option<String>,
    pub scope: Option<u64>,
    pub type_ref_ctx: Option<TypeRefContext>,
}

/// A fact that is carried along without being read.
#[derive(Debug, Clone, PartialEq, Eq)]
pub struct CarriedFact {
    pub encoded: String,
}

/// The facts extracted from one file.
#[derive(Debug, Clone, PartialEq, Eq)]
pub struct FileFacts {
    pub file: String,
    pub lang: String,
    pub symbols: Vec<Symbol>,
    pub references: Vec<Reference>,
    pub scopes: Vec<CarriedFact>,
    pub bindings: Vec<CarriedFact>,
    pub ffi_exports: Vec<CarriedFact>,
}

/// A resolved graph.
#[derive(Debug, Clone, PartialEq, Eq)]
pub struct CodeGraph {
    pub symbols: Vec<Symbol>,
    pub edges: Vec<Edge>,
}

/// The resolved part of a graph that one file owns, carried without being read.
#[derive(Debug, Clone, PartialEq, Eq)]
pub struct FileSubgraph {
    pub owner: String,
    pub encoded: Vec<u8>,
}

/// The texts and numbers of a definition.
pub struct SymbolView {
    pub id: IdView,
    pub name: Seq<char>,
    pub kind: SymbolKind,
    pub visibility: Visibility,
    pub entry_points: Seq<Seq<char>>,
    pub file: Seq<char>,
    pub line: u32,
    pub span: ByteSpan,
    pub signature: Seq<char>,
}

impl Symbol {
    /// The texts and numbers.
    pub open spec fn view(self) -> SymbolView {
        SymbolView {
            id: self.id@,
            name: self.name@,
            kind: self.kind,
            visibility: self.visibility,
            entry_points: self.entry_points@.map_values(|e: EntryPoint| e.label@),
            file: self.file@,
            line: self.line,
            span: self.span,
            signature: self.signature@,
        }
    }

    /// A copy.
    pub fn copied(&self) -> (r: Self)
        ensures
            r@ == self@,
    {
        let mut entry_points: Vec<EntryPoint> = Vec::new();
        let mut i: usize = 0;
        while i < self.entry_points.len()
            invariant
                i <= self.entry_points.len(),
                entry_points@.len() == i,
                forall|j: int|
                    0 <= j < i ==> (#[trigger] entry_points@[j]).label@
                        == self.entry_points@[j].label@,
            decreases self.entry_points.len() - i,
        {
            entry_points.push(EntryPoint { label: self.entry_points[i].label.clone() });
            i += 1;
        }
        let r = Symbol {
            id: self.id.copied(),
            name: self.name.clone(),
            kind: self.kind,
            visibility: self.visibility,
            entry_points,
            file: self.file.clone(),
            line: self.line,
            span: self.span,
            signature: self.signature.clone(),
        };
        assert(r@.entry_points =~= self@.entry_points);
        r
    }
}

impl Keyed for Symbol {
    open spec fn key(&self) -> Seq<u64> {
        id_key(self.id@)
    }

    fn sort_key(&self) -> (k: Vec<u64>) {
        self.id.sort_key()
    }
}

/// The texts and numbers of a reference.
pub struct ReferenceView {
    pub name: Seq<char>,
    pub occ: OccurrenceView,
    pub role: RefRole,
    pub source_module: Option<Seq<char>>,
    pub from_path: Option<Seq<char>>,
    pub qualifier: Option<Seq<char>>,
    pub scope: Option<u64>,
    pub type_ref_ctx: Option<TypeRefContext>,
}

/// The text of an optional text.
pub open spec fn optional_text(s: Option<String>) -> Option<Seq<char>> {
    match s {
        Some(text) => Some(text@),
        None => None,
    }
}

/// A copy of an optional text.
pub fn copied_text(s: &Option<String>) -> (r: Option<String>)
    ensures
        r == *s,
{
    match s {
        Some(text) => Some(text.clone()),
        None => None,
    }
}

impl Reference {
    /// The texts and numbers.
    pub open spec fn view(self) -> ReferenceView {
        ReferenceView {
            name: self.name@,
            occ: self.occ@,
            role: self.role,
            source_module: optional_text(self.source_module),
            from_path: optional_text(self.from_path),
            qualifier: optional_text(self.qualifier),
            scope: self.scope,
            type_ref_ctx: self.type_ref_ctx,
        }
    }

    /// A copy.
    pub fn copied(&self) -> (r: Self)
        ensures
            r == *self,
    {
        Reference {
            name: self.name.clone(),
            occ: Occurrence {
                file: self.occ.file.clone(),
                line: self.occ.line,
                col: self.occ.col,
                byte: self.occ.byte,
            },
            role: self.role,
            source_module: copied_text(&self.source_module),
            from_path: copied_text(&self.from_path),
            qualifier: copied_text(&self.qualifier),
            scope: self.scope,
            type_ref_ctx: self.type_ref_ctx,
        }
    }
}

/// The views of a list of definitions.
pub open spec fn symbol_views(s: Seq<Symbol>) -> Seq<SymbolView> {
    s.map_values(|x: Symbol| x@)
}

/// The views of a list of references.
pub open spec fn reference_views(s: Seq<Reference>) -> Seq<ReferenceView> {
    s.map_values(|x: Reference| x@)
}

/// The texts of a list of carried facts.
pub open spec fn carried_views(s: Seq<CarriedFact>) -> Seq<Seq<char>> {
    s.map_values(|x: CarriedFact| x.encoded@)
}

/// The texts and numbers of the facts of one file.
pub struct FactsView {
    pub file: Seq<char>,
    pub lang: Seq<char>,
    pub symbols: Seq<SymbolView>,
    pub references: Seq<ReferenceView>,
    pub scopes: Seq<Seq<char>>,
    pub bindings: Seq<Seq<char>>,
    pub ffi_exports: Seq<Seq<char>>,
}

fn copied_facts(v: &Vec<CarriedFact>) -> (r: Vec<CarriedFact>)
    ensures
        carried_views(r@) == carried_views(v@),
{
    let mut r: Vec<CarriedFact> = Vec::new();
    let mut i: usize = 0;
    while i < v.len()
        invariant
            i <= v.len(),
            r@.len() == i,
            forall|j: int| 0 <= j < i ==> (#[trigger] r@[j]).encoded@ == v@[j].encoded@,
        decreases v.len() - i,
    {
        r.push(CarriedFact { encoded: v[i].encoded.clone() });
        i += 1;
    }
    assert(carried_views(r@) =~= carried_views(v@));
    r
}

/// A copy of a list of definitions.
pub fn copied_symbols(v: &Vec<Symbol>) -> (r: Vec<Symbol>)
    ensures
        symbol_views(r@) == symbol_views(v@),
{
    let mut r: Vec<Symbol> = Vec::new();
    let mut i: usize = 0;
    while i < v.len()
        invariant
            i <= v.len(),
            r@.len() == i,
            forall|j: int| 0 <= j < i ==> (#[trigger] r@[j])@ == v@[j]@,
        decreases v.len() - i,
    {
        r.push(v[i].copied());
        i += 1;
    }
    assert(symbol_views(r@) =~= symbol_views(v@));
    r
}

impl FileFacts {
    /// The texts and numbers.
    pub open spec fn view(self) -> FactsView {
        FactsView {
            file: self.file@,
            lang: self.lang@,
            symbols: symbol_views(self.symbols@),
            references: reference_views(self.references@),
            scopes: carried_views(self.scopes@),
            bindings: carried_views(self.bindings@),
            ffi_exports: carried_views(self.ffi_exports@),
        }
    }

    /// A copy.
    pub fn copied(&self) -> (r: Self)
        ensures
            r@ == self@,
    {
        let mut references: Vec<Reference> = Vec::new();
        let mut i: usize = 0;
        while i < self.references.len()
            invariant
                i <= self.references.len(),
                references@ == self.references@.take(i as int),
            decreases self.references.len() - i,
        {
            references.push(self.references[i].copied());
            i += 1;
            assert(references@ =~= self.references@.take(i as int));
        }
        assert(references@ =~= self.references@);
        FileFacts {
            file: self.file.clone(),
            lang: self.lang.clone(),
            symbols: copied_symbols(&self.symbols),
            references,
            scopes: copied_facts(&self.scopes),
            bindings: copied_facts(&self.bindings),
            ffi_exports: copied_facts(&self.ffi_exports),
        }
    }
}

/// Two definitions of one list share a structural identity.
pub open spec fn has_duplicate(symbols: Seq<Symbol>, i: int) -> bool {
    exists|j: int| 0 <= j < i && (#[trigger] symbols[j]).id@ == symbols[i].id@
}

/// The first definition whose structural identity an earlier one has.
pub open spec fn first_duplicate(symbols: Seq<Symbol>, i: int) -> bool {
    &&& 0 <= i < symbols.len()
    &&& has_duplicate(symbols, i)
    &&& forall|k: int| 0 <= k < i ==> !#[trigger] has_duplicate(symbols, k)
}

/// The message for a definition whose structural identity another one has.
pub open spec fn duplicate_message(id: IdView) -> Seq<char> {
    "symbol "@ + id_display(id) + " duplicates structural identity"@
}

/// The facts name no definition twice.
pub open spec fn facts_valid(symbols: Seq<Symbol>) -> bool {
    forall|i: int| 0 <= i < symbols.len() ==> !#[trigger] has_duplicate(symbols, i)
}

/// Checks that the facts of a file name no definition twice; the message tells the
/// first that is.
pub fn validate_file_facts(facts: &FileFacts) -> (r: Result<(), String>)
    ensures
        r is Ok <==> facts_valid(facts.symbols@),
        r matches Err(message) ==> exists|i: int|
            #![trigger facts.symbols@[i]]
            first_duplicate(facts.symbols@, i) && message@ == duplicate_message(
                facts.symbols@[i].id@,
            ),
{
    let symbols = &facts.symbols;
    let mut i: usize = 0;
    while i < symbols.len()
        invariant
            i <= symbols.len(),
            symbols@ == facts.symbols@,
            forall|k: int| 0 <= k < i ==> !#[trigger] has_duplicate(symbols@, k),
        decreases symbols.len() - i,
    {
        let mut j: usize = 0;
        while j < i
            invariant
                j <= i,
                i < symbols.len(),
                symbols@ == facts.symbols@,
                forall|k: int| 0 <= k < i ==> !#[trigger] has_duplicate(symbols@, k),
                forall|k: int| 0 <= k < j ==> (#[trigger] symbols@[k]).id@ != symbols@[i as int].id@,
            decreases i - j,
        {
            if symbols[j].id.same(&symbols[i].id) {
                let mut message = "symbol ".to_owned();
                message.append(symbols[i].id.to_scip_string().as_str());
                message.append(" duplicates structural identity");
                assert(has_duplicate(symbols@, i as int));
                assert(first_duplicate(symbols@, i as int));
                return Err(message);
            }
            j += 1;
        }
        i += 1;
    }
    Ok(())
}

/// The owner and the content of a subgraph.
pub struct SubgraphView {
    pub owner: Seq<char>,
    pub encoded: Seq<u8>,
}

impl FileSubgraph {
    /// The owner and the content.
    pub open spec fn view(self) -> SubgraphView {
        SubgraphView { owner: self.owner@, encoded: self.encoded@ }
    }

    /// A copy.
    pub fn copied(&self) -> (r: Self)
        ensures
            r@ == self@,
    {
        FileSubgraph {
            owner: self.owner.clone(),
            encoded: crate::project::path::copied_bytes(self.encoded.as_slice()),
        }
    }
}

} // verus!
