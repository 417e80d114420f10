//! Tool names: the names that a request declares, and the form in which the client
//! knows the tools that were changed for the upstream.
use crate::json::{Json, JsonV};
use crate::text::same_text;
use vstd::prelude::*;

verus! {

/// From the name that is sent upstream to the name that the client knows.
pub struct NameMap {
    entries: Vec<(String, String)>,
}

pub open spec fn pairs_view(entries: Seq<(String, String)>) -> Map<Seq<char>, Seq<char>>
    decreases entries.len(),
{
    if entries.len() == 0 {
        Map::empty()
    } else {
        pairs_view(entries.drop_last()).insert(entries.last().0@, entries.last().1@)
    }
}

impl View for NameMap {
    type V = Map<Seq<char>, Seq<char>>;

    closed spec fn view(&self) -> Map<Seq<char>, Seq<char>> {
        pairs_view(self.entries@)
    }
}

/// The client's name for a tool: the mapped one, or the name itself.
pub open spec fn restored_name(map: Map<Seq<char>, Seq<char>>, name: Seq<char>) -> Seq<char> {
    if map.dom().contains(name) {
        map[name]
    } else {
        name
    }
}

/// From a tool's name and arguments as the upstream gives them to those that the client
/// gets.
pub type Restoring = spec_fn(Seq<char>, JsonV) -> (Seq<char>, JsonV);

/// Brings tool calls back into the form in which the client declared the tools.
pub trait ToolRestorer {
    /// The form in which the client gets a call.
    spec fn restoring(&self) -> Restoring;

    /// The name and the arguments of a call as the client gets them.
    fn restore_call(&self, name: &str, input: Json) -> (r: (String, Json))
        ensures
            (r.0@, r.1@) == (self.restoring())(name@, input@),
    ;
}

/// Names are restored, and arguments are left as they are.
pub open spec fn names_restored(map: Map<Seq<char>, Seq<char>>) -> Restoring {
    |name: Seq<char>, input: JsonV| (restored_name(map, name), input)
}

impl ToolRestorer for NameMap {
    open spec fn restoring(&self) -> Restoring {
        names_restored(self@)
    }

    fn restore_call(&self, name: &str, input: Json) -> (r: (String, Json)) {
        (self.restore(name), input)
    }
}

impl NameMap {
    pub fn new() -> (r: Self)
        ensures
            r@ == Map::<Seq<char>, Seq<char>>::empty(),
    {
        NameMap { entries: Vec::new() }
    }

    pub fn insert(&mut self, from: &str, to: &str)
        ensures
            final(self)@ == old(self)@.insert(from@, to@),
    {
        self.entries.push((from.to_owned(), to.to_owned()));
        assert(self.entries@.drop_last() =~= old(self).entries@);
    }

    /// The client's name for a tool.
    pub fn restore(&self, name: &str) -> (r: String)
        ensures
            r@ == restored_name(self@, name@),
    {
        let mut i: usize = self.entries.len();
        assert(self.entries@.take(i as int) =~= self.entries@);
        while i > 0
            invariant
                i <= self.entries@.len(),
                restored_name(self@, name@) == restored_name(
                    pairs_view(self.entries@.take(i as int)),
                    name@,
                ),
            decreases i,
        {
            assert(self.entries@.take(i as int).drop_last() =~= self.entries@.take(i - 1));
            if same_text(self.entries[i - 1].0.as_str(), name) {
                return self.entries[i - 1].1.clone();
            }
            i = i - 1;
        }
        name.to_owned()
    }
}

/// A member of a tool's arguments that goes by another name upstream.
pub ghost struct RenamedV {
    pub tool: Seq<char>,
    pub from: Seq<char>,
    pub to: Seq<char>,
}

/// The arguments of a tool with the first `n` of the renamed members under the names
/// that the client declared.
pub open spec fn arguments_restored(
    renamed: Seq<RenamedV>,
    tool: Seq<char>,
    input: JsonV,
    n: int,
) -> JsonV
    decreases n,
{
    if n <= 0 {
        input
    } else {
        let before = arguments_restored(renamed, tool, input, n - 1);
        let one = renamed[n - 1];
        match before.field(one.from) {
            Some(v) => if one.tool == tool {
                before.without(one.from).put(one.to, v)
            } else {
                before
            },
            None => before,
        }
    }
}

/// What a request changed in the tools that the client declared: their names, and the
/// names of members of their arguments.
pub struct ToolForms {
    pub names: NameMap,
    /// The upstream's name of the tool, that of the member, and the client's name of the
    /// member.
    pub renamed: Vec<(String, String, String)>,
}

pub open spec fn renamed_view(v: Seq<(String, String, String)>) -> Seq<RenamedV> {
    Seq::new(v.len(), |i: int| RenamedV { tool: v[i].0@, from: v[i].1@, to: v[i].2@ })
}

/// Names are restored, and so are the names of members of arguments.
pub open spec fn forms_restored(
    map: Map<Seq<char>, Seq<char>>,
    renamed: Seq<RenamedV>,
) -> Restoring {
    |name: Seq<char>, input: JsonV|
        (
            restored_name(map, name),
            arguments_restored(renamed, name, input, renamed.len() as int),
        )
}

impl ToolRestorer for ToolForms {
    open spec fn restoring(&self) -> Restoring {
        forms_restored(self.names@, renamed_view(self.renamed@))
    }

    fn restore_call(&self, name: &str, input: Json) -> (r: (String, Json)) {
        let ghost given = input@;
        let ghost renamed = renamed_view(self.renamed@);
        let mut restored = input;
        let mut i: usize = 0;
        while i < self.renamed.len()
            invariant
                i <= self.renamed@.len(),
                renamed == renamed_view(self.renamed@),
                restored@ == arguments_restored(renamed, name@, given, i as int),
            decreases self.renamed.len() - i,
        {
            let one = &self.renamed[i];
            assert(renamed[i as int] == (RenamedV { tool: one.0@, from: one.1@, to: one.2@ }));
            if same_text(one.0.as_str(), name) {
                let member = match restored.get(one.1.as_str()) {
                    Some(v) => Some(v.copy()),
                    None => None,
                };
                if let Some(v) = member {
                    restored = restored.without(one.1.as_str()).with(one.2.as_str(), v);
                }
            }
            i = i + 1;
        }
        (self.names.restore(name), restored)
    }
}

/// From the identifier of a tool call to the index of its block.
pub struct IndexMap {
    entries: Vec<(String, i32)>,
}

pub open spec fn indices_view(entries: Seq<(String, i32)>) -> Map<Seq<char>, int>
    decreases entries.len(),
{
    if entries.len() == 0 {
        Map::empty()
    } else {
        indices_view(entries.drop_last()).insert(entries.last().0@, entries.last().1 as int)
    }
}

impl View for IndexMap {
    type V = Map<Seq<char>, int>;

    closed spec fn view(&self) -> Map<Seq<char>, int> {
        indices_view(self.entries@)
    }
}

impl IndexMap {
    pub fn new() -> (r: Self)
        ensures
            r@ == Map::<Seq<char>, int>::empty(),
    {
        IndexMap { entries: Vec::new() }
    }

    pub fn insert(&mut self, id: &str, index: i32)
        ensures
            final(self)@ == old(self)@.insert(id@, index as int),
    {
        self.entries.push((id.to_owned(), index));
        assert(self.entries@.drop_last() =~= old(self).entries@);
    }

    pub fn get(&self, id: &str) -> (r: Option<i32>)
        ensures
            match r {
                Some(i) => self@.dom().contains(id@) && self@[id@] == i,
                None => !self@.dom().contains(id@),
            },
    {
        let mut i: usize = self.entries.len();
        assert(self.entries@.take(i as int) =~= self.entries@);
        while i > 0
            invariant
                i <= self.entries@.len(),
                self@.dom().contains(id@) == indices_view(
                    self.entries@.take(i as int),
                ).dom().contains(id@),
                self@.dom().contains(id@) ==> self@[id@] == indices_view(
                    self.entries@.take(i as int),
                )[id@],
            decreases i,
        {
            assert(self.entries@.take(i as int).drop_last() =~= self.entries@.take(i - 1));
            if same_text(self.entries[i - 1].0.as_str(), id) {
                return Some(self.entries[i - 1].1);
            }
            i = i - 1;
        }
        None
    }
}

/// A set of tool names.
pub struct NameSet {
    names: Vec<String>,
}

impl View for NameSet {
    type V = Set<Seq<char>>;

    closed spec fn view(&self) -> Set<Seq<char>> {
        Set::new(|n: Seq<char>| exists|i: int| 0 <= i < self.names@.len() && self.names@[i]@ == n)
    }
}

impl NameSet {
    pub fn new() -> (r: Self)
        ensures
            r@ == Set::<Seq<char>>::empty(),
    {
        let r = NameSet { names: Vec::new() };
        assert(r@ =~= Set::<Seq<char>>::empty());
        r
    }

    pub fn insert(&mut self, name: &str)
        ensures
            final(self)@ == old(self)@.insert(name@),
    {
        self.names.push(name.to_owned());
        let ghost before = old(self).names@;
        assert forall|n: Seq<char>| self@.contains(n) == old(self)@.insert(name@).contains(n) by {
            if old(self)@.contains(n) {
                let i = choose|i: int| 0 <= i < before.len() && before[i]@ == n;
                assert(self.names@[i]@ == n);
            }
            if n == name@ {
                assert(self.names@[before.len() as int]@ == n);
            }
            if self@.contains(n) {
                let i = choose|i: int| 0 <= i < self.names@.len() && self.names@[i]@ == n;
                if i < before.len() {
                    assert(before[i]@ == n);
                }
            }
        }
        assert(self@ =~= old(self)@.insert(name@));
    }

    pub fn contains(&self, name: &str) -> (r: bool)
        ensures
            r == self@.contains(name@),
    {
        let mut i: usize = 0;
        while i < self.names.len()
            invariant
                i <= self.names@.len(),
                forall|j: int| 0 <= j < i ==> (#[trigger] self.names@[j])@ != name@,
            decreases self.names.len() - i,
        {
            if same_text(self.names[i].as_str(), name) {
                assert(self.names@[i as int]@ == name@);
                return true;
            }
            i = i + 1;
        }
        false
    }

    /// The names but one.
    pub fn without(&self, name: &str) -> (r: Self)
        ensures
            r@ == self@.remove(name@),
    {
        let mut out = NameSet::new();
        let mut i: usize = 0;
        while i < self.names.len()
            invariant
                i <= self.names@.len(),
                forall|n: Seq<char>|
                    #[trigger] out@.contains(n) == (n != name@ && exists|j: int|
                        0 <= j < i && (#[trigger] self.names@[j])@ == n),
            decreases self.names.len() - i,
        {
            let ghost before = out@;
            let ghost this = self.names@[i as int]@;
            if !same_text(self.names[i].as_str(), name) {
                out.insert(self.names[i].as_str());
            }
            proof {
                assert forall|n: Seq<char>| #[trigger] out@.contains(n) == (n != name@
                    && exists|j: int| 0 <= j < i + 1 && (#[trigger] self.names@[j])@ == n) by {
                    if before.contains(n) {
                        let j = choose|j: int| 0 <= j < i && (#[trigger] self.names@[j])@ == n;
                        assert(self.names@[j]@ == n && j < i + 1);
                    }
                    if n == this {
                        assert(self.names@[i as int]@ == n && i < i + 1);
                    }
                }
            }
            i = i + 1;
        }
        proof {
            assert(out@ =~= self@.remove(name@));
        }
        out
    }

    pub fn copy(&self) -> (r: Self)
        ensures
            r@ == self@,
    {
        let mut out = NameSet::new();
        let mut i: usize = 0;
        while i < self.names.len()
            invariant
                i <= self.names@.len(),
                forall|n: Seq<char>|
                    #[trigger] out@.contains(n) == exists|j: int|
                        0 <= j < i && (#[trigger] self.names@[j])@ == n,
            decreases self.names.len() - i,
        {
            let ghost before = out@;
            out.insert(self.names[i].as_str());
            proof {
                assert forall|n: Seq<char>| #[trigger] out@.contains(n) == exists|j: int|
                    0 <= j < i + 1 && (#[trigger] self.names@[j])@ == n by {
                    if before.contains(n) {
                        let j = choose|j: int| 0 <= j < i && (#[trigger] self.names@[j])@ == n;
                        assert(self.names@[j]@ == n && j < i + 1);
                    }
                    if n == self.names@[i as int]@ {
                        assert(self.names@[i as int]@ == n && i < i + 1);
                    }
                }
            }
            i = i + 1;
        }
        proof {
            assert(out@ =~= self@);
        }
        out
    }
}

} // verus!
