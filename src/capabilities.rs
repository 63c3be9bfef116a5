//! The extension registry: extensions by name in the order they were added,
//! their tools under prefixed names, and the routing of a prefixed tool call.
use vstd::prelude::*;
use crate::json::JsonValue;
use crate::message::AgentError;
use crate::budget::ResourceItem;
use crate::text::{concat_str, str_eq, matches_at, lex_lt, lex_less, lemma_lex_trans, lemma_lex_total};

verus! {

/// A tool as an extension registers it.
#[derive(Clone, Debug)]
pub struct Tool {
    pub name: String,
    pub description: String,
    pub input_schema: JsonValue,
}

impl Tool {
    pub fn new(name: &str, description: &str, input_schema: JsonValue) -> (r: Tool)
        ensures
            r.name@ == name@,
            r.description@ == description@,
            r.input_schema == input_schema,
    {
        Tool { name: name.to_owned(), description: description.to_owned(), input_schema }
    }
}

/// An attached extension: its name, its instructions and its tools.
#[derive(Clone, Debug)]
pub struct Extension {
    pub name: String,
    pub instructions: String,
    pub tools: Vec<Tool>,
}

/// Index of the first extension named `name`.
pub open spec fn index_of(s: Seq<Extension>, name: Seq<char>) -> Option<int>
    decreases s.len(),
{
    if s.len() == 0 {
        None
    } else if s.last().name@ == name {
        match index_of(s.drop_last(), name) {
            Some(i) => Some(i),
            None => Some(s.len() - 1),
        }
    } else {
        index_of(s.drop_last(), name)
    }
}

/// No two extensions share a name.
pub open spec fn names_unique(s: Seq<Extension>) -> bool {
    forall|i: int, j: int| 0 <= i < j < s.len() ==> (#[trigger] s[i]).name@ != (#[trigger] s[j]).name@
}

/// The extensions after adding `c`: it takes the place of one of the same
/// name, or else comes last.
pub open spec fn added(s: Seq<Extension>, c: Extension) -> Seq<Extension> {
    match index_of(s, c.name@) {
        Some(i) => s.update(i, c),
        None => s.push(c),
    }
}

/// The extensions after removing the one named `name`, if any.
pub open spec fn removed(s: Seq<Extension>, name: Seq<char>) -> Seq<Extension> {
    match index_of(s, name) {
        Some(i) => s.remove(i),
        None => s,
    }
}

/// The extension named `name`, if any.
pub open spec fn lookup(s: Seq<Extension>, name: Seq<char>) -> Option<Extension> {
    match index_of(s, name) {
        Some(i) => Some(s[i]),
        None => None,
    }
}

proof fn lemma_index_of(s: Seq<Extension>, name: Seq<char>)
    ensures
        match index_of(s, name) {
            Some(i) => 0 <= i < s.len() && s[i].name@ == name && forall|j: int|
                0 <= j < i ==> s[j].name@ != name,
            None => forall|j: int| 0 <= j < s.len() ==> s[j].name@ != name,
        },
    decreases s.len(),
{
    if s.len() > 0 {
        lemma_index_of(s.drop_last(), name);
        assert(forall|j: int| 0 <= j < s.len() - 1 ==> s[j] == s.drop_last()[j]);
    }
}

proof fn lemma_index_of_unique(s: Seq<Extension>, name: Seq<char>, i: int)
    requires
        names_unique(s),
        0 <= i < s.len(),
        s[i].name@ == name,
    ensures
        index_of(s, name) == Some(i),
{
    lemma_index_of(s, name);
}

proof fn lemma_index_of_absent(s: Seq<Extension>, name: Seq<char>)
    requires
        forall|j: int| 0 <= j < s.len() ==> s[j].name@ != name,
    ensures
        index_of(s, name) is None,
{
    lemma_index_of(s, name);
}

/// The registry of attached extensions.
pub struct Capabilities {
    extensions: Vec<Extension>,
}

impl Capabilities {
    /// The attached extensions, in the order they were added.
    pub closed spec fn view(&self) -> Seq<Extension> {
        self.extensions@
    }

    /// No two attached extensions share a name.
    pub closed spec fn wf(&self) -> bool {
        names_unique(self.extensions@)
    }

    /// A registry with no extension.
    pub fn new() -> (r: Capabilities)
        ensures
            r.wf(),
            r@.len() == 0,
    {
        Capabilities { extensions: Vec::new() }
    }

    fn find(&self, name: &str) -> (r: Option<usize>)
        ensures
            match r {
                Some(i) => index_of(self@, name@) == Some(i as int),
                None => index_of(self@, name@) is None,
            },
    {
        proof {
            lemma_index_of(self@, name@);
        }
        let mut i: usize = 0;
        while i < self.extensions.len()
            invariant
                i <= self.extensions@.len(),
                forall|j: int| 0 <= j < i ==> self.extensions@[j].name@ != name@,
                match index_of(self@, name@) {
                    Some(k) => 0 <= k < self@.len() && self@[k].name@ == name@ && forall|j: int|
                        0 <= j < k ==> self@[j].name@ != name@,
                    None => forall|j: int| 0 <= j < self@.len() ==> self@[j].name@ != name@,
                },
            decreases self.extensions.len() - i,
        {
            if str_eq(self.extensions[i].name.as_str(), name) {
                return Some(i);
            }
            i = i + 1;
        }
        None
    }

    /// Attaches `extension`; one of the same name is replaced in its place.
    pub fn add_extension(&mut self, extension: Extension)
        requires
            old(self).wf(),
        ensures
            final(self).wf(),
            final(self)@ == added(old(self)@, extension),
    {
        let ghost s = self@;
        match self.find(extension.name.as_str()) {
            Some(i) => {
                proof {
                    lemma_index_of(s, extension.name@);
                }
                self.extensions.set(i, extension);
                assert forall|a: int, b: int| 0 <= a < b < self@.len() implies (#[trigger] self@[a]).name@
                    != (#[trigger] self@[b]).name@ by {
                    if a != i as int && b != i as int {
                        assert(s[a].name@ != s[b].name@);
                    } else if a == i {
                        assert(s[i as int].name@ != s[b].name@);
                    } else {
                        assert(s[a].name@ != s[i as int].name@);
                    }
                }
            },
            None => {
                proof {
                    lemma_index_of(s, extension.name@);
                }
                self.extensions.push(extension);
            },
        }
    }

    /// Detaches the extension named `name`; an unknown name is an error.
    pub fn remove_extension(&mut self, name: &str) -> (r: Result<(), AgentError>)
        requires
            old(self).wf(),
        ensures
            final(self).wf(),
            final(self)@ == removed(old(self)@, name@),
            r is Ok <==> index_of(old(self)@, name@) is Some,
            r matches Err(e) ==> e matches AgentError::UnknownExtension(n) && n@ == name@,
    {
        let ghost s = self@;
        proof {
            lemma_index_of(s, name@);
        }
        match self.find(name) {
            Some(i) => {
                self.extensions.remove(i);
                assert forall|a: int, b: int| 0 <= a < b < self@.len() implies (#[trigger] self@[a]).name@
                    != (#[trigger] self@[b]).name@ by {
                    let sa = if a < i { a } else { a + 1 };
                    let sb = if b < i { b } else { b + 1 };
                    assert(self@[a] == s[sa] && self@[b] == s[sb]);
                }
                Ok(())
            },
            None => Err(AgentError::UnknownExtension(name.to_owned())),
        }
    }

    /// Names of the attached extensions, in the order they were added.
    pub fn list_extensions(&self) -> (r: Vec<String>)
        ensures
            r@.len() == self@.len(),
            forall|i: int| 0 <= i < r@.len() ==> (#[trigger] r@[i])@ == self@[i].name@,
    {
        let mut r: Vec<String> = Vec::new();
        let mut i: usize = 0;
        while i < self.extensions.len()
            invariant
                i <= self@.len(),
                r@.len() == i,
                forall|j: int| 0 <= j < i ==> (#[trigger] r@[j])@ == self@[j].name@,
            decreases self.extensions.len() - i,
        {
            r.push(self.extensions[i].name.clone());
            i = i + 1;
        }
        r
    }
}

/// Adding an extension, removing it by name and adding it again leaves every
/// name looking up what a single add does.
pub proof fn lemma_add_remove_add(s: Seq<Extension>, c: Extension, name: Seq<char>)
    requires
        names_unique(s),
    ensures
        lookup(added(removed(added(s, c), c.name@), c), name) == lookup(added(s, c), name),
{
    let a = added(s, c);
    lemma_index_of(s, c.name@);
    lemma_index_of(s, name);
    assert(names_unique(a)) by {
        assert forall|x: int, y: int| 0 <= x < y < a.len() implies (#[trigger] a[x]).name@ != (#[trigger] a[y]).name@ by {
            match index_of(s, c.name@) {
                Some(i) => {
                    if x != i && y != i {
                        assert(s[x].name@ != s[y].name@);
                    } else if x == i {
                        assert(s[i].name@ != s[y].name@);
                    } else {
                        assert(s[x].name@ != s[i].name@);
                    }
                },
                None => {
                    if y == s.len() {
                        assert(a[x] == s[x]);
                    }
                },
            }
        }
    }
    let ia = match index_of(s, c.name@) {
        Some(i) => i,
        None => s.len() as int,
    };
    assert(0 <= ia < a.len() && a[ia].name@ == c.name@);
    lemma_index_of(a, c.name@);
    let r = removed(a, c.name@);
    assert(forall|j: int| 0 <= j < r.len() ==> r[j].name@ != c.name@) by {
        lemma_index_of_unique(a, c.name@, ia);
        assert forall|j: int| 0 <= j < r.len() implies r[j].name@ != c.name@ by {
            if j < ia {
                assert(r[j] == a[j]);
            } else {
                assert(r[j] == a[j + 1]);
            }
        }
    }
    lemma_index_of_absent(r, c.name@);
    let f = added(r, c);
    assert(f == r.push(c));
    lemma_index_of(a, name);
    lemma_index_of(f, name);
    lemma_index_of_unique(a, c.name@, ia);
    if name == c.name@ {
        lemma_index_of_unique(f, name, r.len() as int);
        lemma_index_of_unique(a, name, ia);
    } else {
        match index_of(a, name) {
            Some(k) => {
                let kr = if k < ia { k } else { k - 1 };
                assert(r[kr] == a[k]);
                assert(names_unique(f)) by {
                    assert forall|x: int, y: int| 0 <= x < y < f.len() implies (#[trigger] f[x]).name@ != (#[trigger] f[y]).name@ by {
                        let ax = if x < ia { x } else { x + 1 };
                        if y < r.len() {
                            let ay = if y < ia { y } else { y + 1 };
                            assert(f[x] == a[ax] && f[y] == a[ay]);
                        } else {
                            assert(f[x] == a[ax]);
                        }
                    }
                }
                lemma_index_of_unique(f, name, kr);
            },
            None => {
                assert forall|j: int| 0 <= j < f.len() implies f[j].name@ != name by {
                    if j < r.len() {
                        if j < ia {
                            assert(f[j] == a[j]);
                        } else {
                            assert(f[j] == a[j + 1]);
                        }
                    }
                }
                lemma_index_of_absent(f, name);
            },
        }
    }
}

/// The separator between an extension's name and its tool's name.
pub open spec fn sep() -> Seq<char> {
    "__"@
}

/// The names under which an extension's tools are offered: `<extension>__<tool>`.
pub open spec fn ext_prefixed(e: Extension) -> Seq<Seq<char>> {
    e.tools@.map_values(|t: Tool| e.name@ + sep() + t.name@)
}

/// The prefixed names of all tools, extension by extension in the order they
/// were added, each extension's tools in their order.
pub open spec fn flat_names(s: Seq<Extension>) -> Seq<Seq<char>>
    decreases s.len(),
{
    if s.len() == 0 {
        Seq::empty()
    } else {
        flat_names(s.drop_last()) + ext_prefixed(s.last())
    }
}

/// All tools, in the same order as `flat_names`.
pub open spec fn flat_tools(s: Seq<Extension>) -> Seq<Tool>
    decreases s.len(),
{
    if s.len() == 0 {
        Seq::empty()
    } else {
        flat_tools(s.drop_last()) + s.last().tools@
    }
}

/// The (extension name, tool name) of each tool, in the order of `flat_names`.
pub open spec fn flat_keys(s: Seq<Extension>) -> Seq<(Seq<char>, Seq<char>)>
    decreases s.len(),
{
    if s.len() == 0 {
        Seq::empty()
    } else {
        flat_keys(s.drop_last()) + s.last().tools@.map_values(|t: Tool| (s.last().name@, t.name@))
    }
}

/// Order of tools: by extension name, then by tool name.
pub open spec fn key_lt(x: (Seq<char>, Seq<char>), y: (Seq<char>, Seq<char>)) -> bool {
    lex_lt(x.0, y.0) || (x.0 == y.0 && lex_lt(x.1, y.1))
}

/// `order` lists every index of `keys` once, in increasing key order.
pub open spec fn sorts(keys: Seq<(Seq<char>, Seq<char>)>, order: Seq<usize>) -> bool {
    &&& order.len() == keys.len()
    &&& forall|i: int| 0 <= i < order.len() ==> (#[trigger] order[i]) < keys.len()
    &&& forall|i: int, j: int|
        0 <= i < j < order.len() ==> key_lt(keys[#[trigger] order[i] as int], keys[#[trigger] order[j] as int])
    &&& forall|k: int| 0 <= k < keys.len() ==> #[trigger] crate::budget::lists(order, k)
}

proof fn lemma_key_order(x: (Seq<char>, Seq<char>), y: (Seq<char>, Seq<char>), z: (Seq<char>, Seq<char>))
    ensures
        !key_lt(x, x),
        !(key_lt(x, y) && key_lt(y, x)),
        x != y ==> (key_lt(x, y) || key_lt(y, x)),
        key_lt(x, y) && key_lt(y, z) ==> key_lt(x, z),
{
    lemma_lex_total(x.0, y.0);
    lemma_lex_total(x.1, y.1);
    lemma_lex_total(y.0, z.0);
    lemma_lex_total(x.0, z.0);
    if lex_lt(x.0, y.0) && lex_lt(y.0, z.0) {
        lemma_lex_trans(x.0, y.0, z.0);
    }
    if lex_lt(x.1, y.1) && lex_lt(y.1, z.1) {
        lemma_lex_trans(x.1, y.1, z.1);
    }
}

proof fn lemma_flat_keys(s: Seq<Extension>)
    ensures
        flat_keys(s).len() == flat_names(s).len(),
        forall|i: int| 0 <= i < flat_names(s).len() ==> #[trigger] flat_names(s)[i] == flat_keys(s)[i].0 + sep() + flat_keys(s)[i].1,
    decreases s.len(),
{
    if s.len() > 0 {
        lemma_flat_keys(s.drop_last());
        let p = flat_names(s.drop_last());
        assert forall|i: int| 0 <= i < flat_names(s).len() implies #[trigger] flat_names(s)[i] == flat_keys(s)[i].0 + sep() + flat_keys(s)[i].1 by {
            if i >= p.len() {
                assert(flat_names(s)[i] == ext_prefixed(s.last())[i - p.len()]);
            } else {
                assert(flat_names(s)[i] == p[i]);
                assert(flat_keys(s)[i] == flat_keys(s.drop_last())[i]);
            }
        }
    }
}

proof fn lemma_flat_len(s: Seq<Extension>)
    ensures
        flat_names(s).len() == flat_tools(s).len(),
    decreases s.len(),
{
    if s.len() > 0 {
        lemma_flat_len(s.drop_last());
    }
}

/// No two entries of `names` are equal.
pub open spec fn all_distinct(names: Seq<Seq<char>>) -> bool {
    forall|i: int, j: int| 0 <= i < j < names.len() ==> names[i] != names[j]
}

/// The character may stand in a tool name offered to a model.
pub open spec fn is_name_char(c: char) -> bool {
    ('a' <= c && c <= 'z') || ('A' <= c && c <= 'Z') || ('0' <= c && c <= '9') || c == '_' || c == '-'
}

/// A non-empty name of name characters only.
pub open spec fn is_valid_name(s: Seq<char>) -> bool {
    s.len() > 0 && forall|i: int| 0 <= i < s.len() ==> is_name_char(#[trigger] s[i])
}

/// `s` reads `<name>__<name>`, both names valid.
pub open spec fn is_prefixed_name(s: Seq<char>) -> bool {
    exists|i: int|
        0 <= i && i + 2 <= s.len() && is_valid_name(#[trigger] s.take(i)) && s.subrange(i, i + 2) == sep()
            && is_valid_name(s.skip(i + 2))
}

/// Position of the first separator in `s`.
pub open spec fn is_first_sep(s: Seq<char>, i: int) -> bool {
    &&& crate::text::occurs_at(s, sep(), i)
    &&& forall|j: int| 0 <= j < i ==> !crate::text::occurs_at(s, sep(), j)
}

impl Capabilities {
    /// The tools of every extension under prefixed names, sorted by
    /// extension name and then tool name. Two tools under one prefixed name
    /// are an error naming it.
    pub fn get_prefixed_tools(&self) -> (r: Result<Vec<Tool>, AgentError>)
        ensures
            r is Ok <==> all_distinct(flat_names(self@)),
            r matches Ok(v) ==> exists|order: Seq<usize>| {
                &&& sorts(flat_keys(self@), order)
                &&& v@.len() == order.len()
                &&& forall|i: int| 0 <= i < v@.len() ==> {
                    &&& (#[trigger] v@[i]).name@ == flat_names(self@)[order[i] as int]
                    &&& v@[i].description@ == flat_tools(self@)[order[i] as int].description@
                }
            },
            r matches Err(e) ==> e matches AgentError::DuplicateTool(n) && exists|i: int, j: int|
                0 <= i < j < flat_names(self@).len() && flat_names(self@)[i] == n@
                    && flat_names(self@)[j] == n@,
    {
        let ghost s = self@;
        let mut out: Vec<Tool> = Vec::new();
        let mut pairs: Vec<(usize, usize)> = Vec::new();
        let mut e: usize = 0;
        assert(s.take(0) =~= Seq::<Extension>::empty());
        while e < self.extensions.len()
            invariant
                s == self@,
                e <= s.len(),
                out@.len() == flat_names(s.take(e as int)).len(),
                flat_names(s.take(e as int)).len() == flat_tools(s.take(e as int)).len(),
                flat_names(s.take(e as int)).len() == flat_keys(s.take(e as int)).len(),
                pairs@.len() == out@.len(),
                forall|i: int| 0 <= i < out@.len() ==> {
                    &&& (#[trigger] out@[i]).name@ == flat_names(s.take(e as int))[i]
                    &&& out@[i].description@ == flat_tools(s.take(e as int))[i].description@
                },
                forall|i: int| 0 <= i < pairs@.len() ==> {
                    &&& (#[trigger] pairs@[i]).0 < s.len()
                    &&& pairs@[i].1 < s[pairs@[i].0 as int].tools@.len()
                    &&& flat_keys(s.take(e as int))[i] == (s[pairs@[i].0 as int].name@, s[pairs@[i].0 as int].tools@[pairs@[i].1 as int].name@)
                },
            decreases self.extensions.len() - e,
        {
            let ext = &self.extensions[e];
            let ghost base_names = flat_names(s.take(e as int));
            let ghost base_tools = flat_tools(s.take(e as int));
            let ghost base_keys = flat_keys(s.take(e as int));
            let ghost base_len = out@.len();
            let prefix = concat_str(ext.name.as_str(), "__");
            let mut t: usize = 0;
            while t < ext.tools.len()
                invariant
                    s == self@,
                    e < s.len(),
                    *ext == s[e as int],
                    prefix@ == ext.name@ + sep(),
                    t <= ext.tools@.len(),
                    base_len == base_names.len(),
                    base_names.len() == base_tools.len(),
                    base_names.len() == base_keys.len(),
                    out@.len() == base_len + t,
                    pairs@.len() == out@.len(),
                    forall|i: int| 0 <= i < base_len ==> {
                        &&& (#[trigger] out@[i]).name@ == base_names[i]
                        &&& out@[i].description@ == base_tools[i].description@
                    },
                    forall|i: int| 0 <= i < base_len ==> {
                        &&& (#[trigger] pairs@[i]).0 < s.len()
                        &&& pairs@[i].1 < s[pairs@[i].0 as int].tools@.len()
                        &&& base_keys[i] == (s[pairs@[i].0 as int].name@, s[pairs@[i].0 as int].tools@[pairs@[i].1 as int].name@)
                    },
                    forall|k: int| 0 <= k < t ==> {
                        &&& (#[trigger] out@[base_len + k]).name@ == ext_prefixed(*ext)[k]
                        &&& out@[base_len + k].description@ == ext.tools@[k].description@
                        &&& pairs@[base_len + k] == (e, k as usize)
                    },
                decreases ext.tools.len() - t,
            {
                let tool = &ext.tools[t];
                let name = concat_str(prefix.as_str(), tool.name.as_str());
                out.push(Tool { name, description: tool.description.clone(), input_schema: tool.input_schema.clone() });
                pairs.push((e, t));
                proof {
                    assert(out@[base_len + t as int].name@ == ext_prefixed(*ext)[t as int]);
                }
                t = t + 1;
            }
            proof {
                let st = s.take(e as int + 1);
                assert(st.drop_last() =~= s.take(e as int));
                assert(st.last() == s[e as int]);
                assert(flat_names(st) == base_names + ext_prefixed(*ext));
                assert(flat_tools(st) == base_tools + ext.tools@);
                assert(flat_keys(st) == base_keys + ext.tools@.map_values(|x: Tool| (ext.name@, x.name@)));
                assert forall|i: int| 0 <= i < out@.len() implies {
                    &&& (#[trigger] out@[i]).name@ == flat_names(st)[i]
                    &&& out@[i].description@ == flat_tools(st)[i].description@
                } by {
                    if i >= base_len {
                        assert(out@[base_len + (i - base_len)] == out@[i]);
                    }
                }
                assert forall|i: int| 0 <= i < pairs@.len() implies {
                    &&& (#[trigger] pairs@[i]).0 < s.len()
                    &&& pairs@[i].1 < s[pairs@[i].0 as int].tools@.len()
                    &&& flat_keys(st)[i] == (s[pairs@[i].0 as int].name@, s[pairs@[i].0 as int].tools@[pairs@[i].1 as int].name@)
                } by {
                    if i >= base_len {
                        assert(out@[base_len + (i - base_len)] == out@[i]);
                        assert(pairs@[base_len + (i - base_len)] == pairs@[i]);
                    }
                }
            }
            e = e + 1;
        }
        assert(s.take(e as int) =~= s);
        let n = out.len();
        let mut i: usize = 0;
        while i < n
            invariant
                s == self@,
                n == out@.len(),
                n == flat_names(s).len(),
                forall|k: int| 0 <= k < n ==> (#[trigger] out@[k]).name@ == flat_names(s)[k],
                forall|a: int, b: int| 0 <= a < b < n && a < i ==> flat_names(s)[a] != flat_names(s)[b],
            decreases n - i,
        {
            let mut j: usize = i + 1;
            while j < n
                invariant
                    s == self@,
                    i < n,
                    n == out@.len(),
                    n == flat_names(s).len(),
                    forall|k: int| 0 <= k < n ==> (#[trigger] out@[k]).name@ == flat_names(s)[k],
                    forall|a: int, b: int| 0 <= a < b < n && a < i ==> flat_names(s)[a] != flat_names(s)[b],
                    i < j <= n,
                    forall|b: int| i < b < j ==> flat_names(s)[i as int] != flat_names(s)[b],
                decreases n - j,
            {
                if str_eq(out[i].name.as_str(), out[j].name.as_str()) {
                    let dup = out[i].name.clone();
                    assert(out@[i as int].name@ == flat_names(s)[i as int]);
                    assert(out@[j as int].name@ == flat_names(s)[j as int]);
                    assert(flat_names(s)[i as int] == dup@ && flat_names(s)[j as int] == dup@);
                    assert(!all_distinct(flat_names(s)));
                    return Err(AgentError::DuplicateTool(dup));
                }
                j = j + 1;
            }
            i = i + 1;
        }
        let ghost keys = flat_keys(s);
        proof {
            lemma_flat_keys(s);
            assert forall|a: int, b: int| 0 <= a < n && 0 <= b < n && a != b implies keys[a] != keys[b] by {
                if keys[a] == keys[b] {
                    assert(flat_names(s)[a] == flat_names(s)[b]);
                    if a < b {
                        assert(flat_names(s)[a] != flat_names(s)[b]);
                    } else {
                        assert(flat_names(s)[b] != flat_names(s)[a]);
                    }
                }
            }
        }
        let mut order: Vec<usize> = Vec::new();
        let mut k: usize = 0;
        while k < n
            invariant
                s == self@,
                keys == flat_keys(s),
                keys.len() == n,
                n == out@.len(),
                n == pairs@.len(),
                k <= n,
                order@.len() == k,
                forall|a: int, b: int| 0 <= a < n && 0 <= b < n && a != b ==> keys[a] != keys[b],
                forall|a: int| 0 <= a < pairs@.len() ==> {
                    &&& (#[trigger] pairs@[a]).0 < s.len()
                    &&& pairs@[a].1 < s[pairs@[a].0 as int].tools@.len()
                    &&& keys[a] == (s[pairs@[a].0 as int].name@, s[pairs@[a].0 as int].tools@[pairs@[a].1 as int].name@)
                },
                forall|a: int| 0 <= a < order@.len() ==> (#[trigger] order@[a]) < k,
                forall|a: int, b: int|
                    0 <= a < b < order@.len() ==> key_lt(keys[#[trigger] order@[a] as int], keys[#[trigger] order@[b] as int]),
                forall|m: int| 0 <= m < k ==> #[trigger] crate::budget::lists(order@, m),
            decreases n - k,
        {
            let mut p: usize = 0;
            while p < order.len() && !self.key_less(&pairs, k, order[p], Ghost(keys))
                invariant
                    s == self@,
                    keys == flat_keys(s),
                    keys.len() == n,
                    n == pairs@.len(),
                    k < n,
                    p <= order@.len(),
                    forall|a: int| 0 <= a < pairs@.len() ==> {
                        &&& (#[trigger] pairs@[a]).0 < s.len()
                        &&& pairs@[a].1 < s[pairs@[a].0 as int].tools@.len()
                        &&& keys[a] == (s[pairs@[a].0 as int].name@, s[pairs@[a].0 as int].tools@[pairs@[a].1 as int].name@)
                    },
                    forall|a: int| 0 <= a < order@.len() ==> (#[trigger] order@[a]) < k,
                    forall|a: int| 0 <= a < p ==> !key_lt(keys[k as int], keys[#[trigger] order@[a] as int]),
                decreases order.len() - p,
            {
                p = p + 1;
            }
            let ghost old_order = order@;
            order.insert(p, k);
            proof {
                assert forall|a: int, b: int|
                    0 <= a < b < order@.len() implies key_lt(keys[#[trigger] order@[a] as int], keys[#[trigger] order@[b] as int]) by {
                    if b < p {
                        assert(order@[a] == old_order[a] && order@[b] == old_order[b]);
                    } else if b == p {
                        assert(order@[a] == old_order[a]);
                        lemma_key_order(keys[k as int], keys[old_order[a] as int], keys[k as int]);
                        assert(!key_lt(keys[k as int], keys[old_order[a] as int]));
                        assert(old_order[a] != k);
                    } else if a == p {
                        assert(order@[b] == old_order[b - 1]);
                        if b - 1 > p {
                            assert(key_lt(keys[old_order[p as int] as int], keys[old_order[b - 1] as int]));
                            lemma_key_order(keys[k as int], keys[old_order[p as int] as int], keys[old_order[b - 1] as int]);
                        }
                    } else if a < p {
                        assert(order@[a] == old_order[a] && order@[b] == old_order[b - 1]);
                    } else {
                        assert(order@[a] == old_order[a - 1] && order@[b] == old_order[b - 1]);
                    }
                }
                assert forall|m: int| 0 <= m < k + 1 implies #[trigger] crate::budget::lists(order@, m) by {
                    if m == k {
                        assert(order@[p as int] == k);
                    } else {
                        assert(crate::budget::lists(old_order, m));
                        let i0 = choose|i: int| 0 <= i < old_order.len() && old_order[i] == m;
                        if i0 < p {
                            assert(order@[i0] == m);
                        } else {
                            assert(order@[i0 + 1] == m);
                        }
                    }
                }
            }
            k = k + 1;
        }
        let mut v: Vec<Tool> = Vec::new();
        let mut q: usize = 0;
        while q < n
            invariant
                s == self@,
                n == out@.len(),
                n == order@.len(),
                n == flat_names(s).len(),
                flat_names(s).len() == flat_tools(s).len(),
                forall|a: int| 0 <= a < n ==> (#[trigger] order@[a]) < n,
                forall|a: int| 0 <= a < n ==> {
                    &&& (#[trigger] out@[a]).name@ == flat_names(s)[a]
                    &&& out@[a].description@ == flat_tools(s)[a].description@
                },
                q <= n,
                v@.len() == q,
                forall|a: int| 0 <= a < q ==> {
                    &&& (#[trigger] v@[a]).name@ == flat_names(s)[order@[a] as int]
                    &&& v@[a].description@ == flat_tools(s)[order@[a] as int].description@
                },
            decreases n - q,
        {
            let src = &out[order[q]];
            v.push(Tool { name: src.name.clone(), description: src.description.clone(), input_schema: src.input_schema.clone() });
            q = q + 1;
        }
        assert(sorts(flat_keys(s), order@));
        Ok(v)
    }

    fn key_less(&self, pairs: &Vec<(usize, usize)>, a: usize, b: usize, Ghost(keys): Ghost<Seq<(Seq<char>, Seq<char>)>>) -> (r: bool)
        requires
            a < pairs@.len(),
            b < pairs@.len(),
            keys.len() == pairs@.len(),
            forall|x: int| 0 <= x < pairs@.len() ==> {
                &&& (#[trigger] pairs@[x]).0 < self@.len()
                &&& pairs@[x].1 < self@[pairs@[x].0 as int].tools@.len()
                &&& keys[x] == (self@[pairs@[x].0 as int].name@, self@[pairs@[x].0 as int].tools@[pairs@[x].1 as int].name@)
            },
        ensures
            r == key_lt(keys[a as int], keys[b as int]),
    {
        let (ea, ta) = pairs[a];
        let (eb, tb) = pairs[b];
        let na = self.extensions[ea].name.as_str();
        let nb = self.extensions[eb].name.as_str();
        if lex_less(na, nb) {
            return true;
        }
        if !str_eq(na, nb) {
            return false;
        }
        lex_less(self.extensions[ea].tools[ta].name.as_str(), self.extensions[eb].tools[tb].name.as_str())
    }

    /// Routes a prefixed tool name: the extension named before the first
    /// separator, and the tool named after it, which that extension must offer.
    pub fn route_tool_call(&self, name: &str) -> (r: Result<(usize, String), AgentError>)
        ensures
            match r {
                Ok((e, tool)) => exists|i: int|
                    is_first_sep(name@, i) && index_of(self@, name@.take(i)) == Some(e as int)
                        && tool@ == name@.skip(i + 2) && exists|t: int|
                        0 <= t < self@[e as int].tools@.len() && #[trigger] self@[e as int].tools@[t].name@
                            == tool@,
                Err(AgentError::ToolNotFound(n)) => n@ == name@ && (forall|i: int|
                    !is_first_sep(name@, i)) || exists|i: int|
                    is_first_sep(name@, i) && n@ == name@.skip(i + 2) && match index_of(
                        self@,
                        name@.take(i),
                    ) {
                        Some(e) => forall|t: int|
                            0 <= t < self@[e].tools@.len() ==> #[trigger] self@[e].tools@[t].name@ != n@,
                        None => false,
                    },
                Err(AgentError::UnknownExtension(n)) => exists|i: int|
                    is_first_sep(name@, i) && n@ == name@.take(i) && index_of(self@, n@) is None,
                Err(_) => false,
            },
    {
        proof {
            reveal_strlit("__");
        }
        let len = name.unicode_len();
        let mut i: usize = 0;
        while i < len && !matches_at(name, "__", i)
            invariant
                len == name@.len(),
                i <= len,
                forall|j: int| 0 <= j < i ==> !crate::text::occurs_at(name@, sep(), j),
            decreases len - i,
        {
            i = i + 1;
        }
        if i >= len {
            assert forall|k: int| !is_first_sep(name@, k) by {
                if is_first_sep(name@, k) {
                    assert(k < i);
                    assert(!crate::text::occurs_at(name@, sep(), k));
                }
            }
            return Err(AgentError::ToolNotFound(name.to_owned()));
        }
        proof {
            reveal_strlit("__");
        }
        assert(is_first_sep(name@, i as int));
        let ext_name = name.substring_char(0, i);
        let tool_name = name.substring_char(i + 2, len);
        assert(ext_name@ =~= name@.take(i as int));
        assert(tool_name@ =~= name@.skip(i + 2));
        match self.find(ext_name) {
            None => Err(AgentError::UnknownExtension(ext_name.to_owned())),
            Some(e) => {
                proof {
                    lemma_index_of(self@, ext_name@);
                }
                let ext = &self.extensions[e];
                let mut t: usize = 0;
                while t < ext.tools.len()
                    invariant
                        e < self@.len(),
                        *ext == self@[e as int],
                        index_of(self@, name@.take(i as int)) == Some(e as int),
                        is_first_sep(name@, i as int),
                        tool_name@ == name@.skip(i + 2),
                        t <= ext.tools@.len(),
                        forall|k: int| 0 <= k < t ==> #[trigger] ext.tools@[k].name@ != tool_name@,
                    decreases ext.tools.len() - t,
                {
                    if str_eq(ext.tools[t].name.as_str(), tool_name) {
                        assert(self@[e as int].tools@[t as int].name@ == tool_name@);
                        let tool = tool_name.to_owned();
                        assert(is_first_sep(name@, i as int) && index_of(self@, name@.take(i as int)) == Some(e as int)
                            && tool@ == name@.skip(i + 2) && exists|t: int|
                            0 <= t < self@[e as int].tools@.len() && #[trigger] self@[e as int].tools@[t].name@
                                == tool@);
                        return Ok((e, tool));
                    }
                    t = t + 1;
                }
                Err(AgentError::ToolNotFound(tool_name.to_owned()))
            },
        }
    }
}

/// Where extension and tool names are valid, every prefixed name reads
/// `<name>__<name>`; where the list was returned, no two names are equal.
pub proof fn lemma_prefixed_names_well_formed(s: Seq<Extension>, k: int)
    requires
        0 <= k < flat_names(s).len(),
        forall|e: int| 0 <= e < s.len() ==> is_valid_name(#[trigger] s[e].name@),
        forall|e: int, t: int|
            0 <= e < s.len() && 0 <= t < s[e].tools@.len() ==> is_valid_name(#[trigger] s[e].tools@[t].name@),
    ensures
        is_prefixed_name(flat_names(s)[k]),
    decreases s.len(),
{
    let p = flat_names(s.drop_last());
    assert forall|e: int| 0 <= e < s.drop_last().len() implies is_valid_name(#[trigger] s.drop_last()[e].name@) by {
        assert(s.drop_last()[e] == s[e]);
    }
    assert forall|e: int, t: int|
        0 <= e < s.drop_last().len() && 0 <= t < s.drop_last()[e].tools@.len() implies is_valid_name(#[trigger] s.drop_last()[e].tools@[t].name@) by {
        assert(s.drop_last()[e] == s[e]);
    }
    if k < p.len() {
        lemma_prefixed_names_well_formed(s.drop_last(), k);
    } else {
        let last = s.last();
        let t = k - p.len();
        assert(is_valid_name(last.name@));
        assert(is_valid_name(last.tools@[t].name@));
        reveal_strlit("__");
        let full = last.name@ + sep() + last.tools@[t].name@;
        assert(flat_names(s)[k] == full);
        let i = last.name@.len() as int;
        assert(full.take(i) =~= last.name@);
        assert(full.subrange(i, i + 2) =~= sep());
        assert(full.skip(i + 2) =~= last.tools@[t].name@);
    }
}

/// What a resource cache holds: the turn, and that turn's resources if
/// fetched.
pub type CacheView = (u64, Option<Seq<ResourceItem>>);

/// The resources served for `turn`: the snapshot, where it is that turn's.
pub open spec fn served(c: CacheView, turn: u64) -> Option<Seq<ResourceItem>> {
    if c.0 == turn {
        c.1
    } else {
        None
    }
}

/// The cache after `items` were fetched for `turn`: a snapshot already
/// taken in that turn stays.
pub open spec fn stored(c: CacheView, turn: u64, items: Seq<ResourceItem>) -> CacheView {
    if c.0 == turn && c.1 is Some {
        c
    } else {
        (turn, Some(items))
    }
}

/// The resources fetched for one turn: fetched once, then served unchanged
/// for the rest of that turn.
pub struct ResourceCache {
    turn: u64,
    items: Option<Vec<ResourceItem>>,
}

impl ResourceCache {
    pub closed spec fn view(&self) -> CacheView {
        (self.turn, match self.items {
            Some(v) => Some(v@),
            None => None,
        })
    }

    /// Nothing fetched yet.
    pub fn new() -> (r: ResourceCache)
        ensures
            r@.1 is None,
    {
        ResourceCache { turn: 0, items: None }
    }

    /// The resources of `turn`, where they were fetched during it; `None`
    /// means they must be fetched now.
    pub fn get_resources(&self, turn: u64) -> (r: Option<&Vec<ResourceItem>>)
        ensures
            served(self@, turn) == match r {
                Some(v) => Some(v@),
                None => None,
            },
    {
        if self.turn != turn {
            return None;
        }
        match &self.items {
            Some(v) => Some(v),
            None => None,
        }
    }

    /// Records what was fetched for `turn`, unless that turn already has its
    /// snapshot, which stays.
    pub fn store_resources(&mut self, turn: u64, items: Vec<ResourceItem>)
        ensures
            final(self)@ == stored(old(self)@, turn, items@),
    {
        if self.turn == turn && self.items.is_some() {
            return;
        }
        self.turn = turn;
        self.items = Some(items);
    }
}

/// Within one turn, resources are served as the first snapshot taken: a
/// later fetch in the same turn does not replace it, so two requests in the
/// turn return identical snapshots.
pub proof fn lemma_snapshot_stable(c: CacheView, turn: u64, first: Seq<ResourceItem>, later: Seq<ResourceItem>)
    ensures
        served(stored(c, turn, first), turn) is Some,
        served(stored(stored(c, turn, first), turn, later), turn) == served(stored(c, turn, first), turn),
{
}

/// The system prompt: the base prompt, then for each extension in the order
/// it was added a section headed by its name holding its instructions.
pub open spec fn system_prompt(base: Seq<char>, s: Seq<Extension>) -> Seq<char>
    decreases s.len(),
{
    if s.len() == 0 {
        base
    } else {
        system_prompt(base, s.drop_last()) + "\n\n## "@ + s.last().name@ + "\n"@ + s.last().instructions@
    }
}

impl Capabilities {
    /// The system prompt for `base`, with every extension's instructions.
    pub fn get_system_prompt(&self, base: &str) -> (r: String)
        ensures
            r@ == system_prompt(base@, self@),
    {
        let mut out = base.to_owned();
        let mut i: usize = 0;
        assert(self@.take(0) =~= Seq::<Extension>::empty());
        while i < self.extensions.len()
            invariant
                i <= self@.len(),
                out@ == system_prompt(base@, self@.take(i as int)),
            decreases self.extensions.len() - i,
        {
            out.append("\n\n## ");
            out.append(self.extensions[i].name.as_str());
            out.append("\n");
            out.append(self.extensions[i].instructions.as_str());
            proof {
                let t = self@.take(i + 1);
                assert(t.drop_last() =~= self@.take(i as int));
                assert(t.last() == self@[i as int]);
            }
            i = i + 1;
        }
        assert(self@.take(i as int) =~= self@);
        out
    }
}

/// Token counts of one model.
#[derive(Clone, Debug, PartialEq)]
pub struct ModelUsage {
    pub model: String,
    pub input_tokens: u64,
    pub output_tokens: u64,
}

/// The first entry for `model`.
pub open spec fn usage_index(u: Seq<ModelUsage>, model: Seq<char>) -> Option<int>
    decreases u.len(),
{
    if u.len() == 0 {
        None
    } else {
        match usage_index(u.drop_last(), model) {
            Some(i) => Some(i),
            None => if u.last().model@ == model {
                Some(u.len() - 1)
            } else {
                None
            },
        }
    }
}

/// Totals so far for `model`: (input, output).
pub open spec fn usage_of(u: Seq<ModelUsage>, model: Seq<char>) -> (int, int) {
    match usage_index(u, model) {
        Some(i) => (u[i].input_tokens as int, u[i].output_tokens as int),
        None => (0, 0),
    }
}

proof fn lemma_usage_index(u: Seq<ModelUsage>, model: Seq<char>)
    ensures
        match usage_index(u, model) {
            Some(i) => 0 <= i < u.len() && u[i].model@ == model && forall|j: int| 0 <= j < i ==> u[j].model@ != model,
            None => forall|j: int| 0 <= j < u.len() ==> u[j].model@ != model,
        },
    decreases u.len(),
{
    if u.len() > 0 {
        lemma_usage_index(u.drop_last(), model);
        assert(forall|j: int| 0 <= j < u.len() - 1 ==> u[j] == u.drop_last()[j]);
    }
}

proof fn lemma_same_models(u: Seq<ModelUsage>, v: Seq<ModelUsage>, m: Seq<char>)
    requires
        v.len() == u.len(),
        forall|j: int| 0 <= j < u.len() ==> v[j].model@ == u[j].model@,
    ensures
        usage_index(v, m) == usage_index(u, m),
    decreases u.len(),
{
    if u.len() > 0 {
        assert(forall|j: int| 0 <= j < u.len() - 1 ==> v.drop_last()[j].model@ == u.drop_last()[j].model@);
        lemma_same_models(u.drop_last(), v.drop_last(), m);
    }
}

/// Token usage summed by model, models in the order first seen.
pub struct UsageTotals {
    entries: Vec<ModelUsage>,
}

impl UsageTotals {
    pub closed spec fn view(&self) -> Seq<ModelUsage> {
        self.entries@
    }

    pub fn new() -> (r: UsageTotals)
        ensures
            r@.len() == 0,
    {
        UsageTotals { entries: Vec::new() }
    }

    /// Adds one completion's counts to the totals of `model`.
    pub fn record_usage(&mut self, model: &str, input_tokens: u64, output_tokens: u64)
        requires
            usage_of(old(self)@, model@).0 + input_tokens <= u64::MAX,
            usage_of(old(self)@, model@).1 + output_tokens <= u64::MAX,
        ensures
            usage_of(final(self)@, model@) == (usage_of(old(self)@, model@).0 + input_tokens, usage_of(old(self)@, model@).1
                + output_tokens),
            forall|m: Seq<char>| m != model@ ==> #[trigger] usage_of(final(self)@, m) == usage_of(old(self)@, m),
    {
        let ghost u = self.entries@;
        proof {
            lemma_usage_index(u, model@);
        }
        let mut i: usize = 0;
        while i < self.entries.len()
            invariant
                u == self.entries@,
                u == old(self).entries@,
                i <= u.len(),
                forall|j: int| 0 <= j < i ==> u[j].model@ != model@,
                usage_of(u, model@).0 + input_tokens <= u64::MAX,
                usage_of(u, model@).1 + output_tokens <= u64::MAX,
                match usage_index(u, model@) {
                    Some(k) => 0 <= k < u.len() && u[k].model@ == model@ && forall|j: int| 0 <= j < k ==> u[j].model@ != model@,
                    None => forall|j: int| 0 <= j < u.len() ==> u[j].model@ != model@,
                },
            decreases self.entries.len() - i,
        {
            if str_eq(self.entries[i].model.as_str(), model) {
                assert(usage_index(u, model@) == Some(i as int));
                let e = self.entries.remove(i);
                let updated = ModelUsage {
                    model: e.model,
                    input_tokens: e.input_tokens + input_tokens,
                    output_tokens: e.output_tokens + output_tokens,
                };
                self.entries.insert(i, updated);
                proof {
                    let v = self.entries@;
                    assert(v =~= u.update(i as int, updated));
                    assert forall|m: Seq<char>| true implies #[trigger] usage_index(v, m) == usage_index(u, m) by {
                        lemma_same_models(u, v, m);
                    }
                    assert forall|m: Seq<char>| m != model@ implies #[trigger] usage_of(self@, m) == usage_of(u, m) by {
                        lemma_same_models(u, v, m);
                        lemma_usage_index(u, m);
                        if usage_index(u, m) is Some {
                            let k = usage_index(u, m)->Some_0;
                            assert(k != i);
                        }
                    }
                }
                return;
            }
            i = i + 1;
        }
        self.entries.push(ModelUsage { model: model.to_owned(), input_tokens, output_tokens });
        proof {
            let v = self.entries@;
            assert(v.drop_last() =~= u);
            assert(usage_index(u, model@) is None);
            assert forall|m: Seq<char>| m != model@ implies #[trigger] usage_of(self@, m) == usage_of(u, m) by {
                lemma_usage_index(u, m);
            }
        }
    }

    /// The totals, by model.
    pub fn get_usage(&self) -> (r: &Vec<ModelUsage>)
        ensures
            r@ == self@,
    {
        &self.entries
    }
}

} // verus!
