//! The tools that a child advertised, kept for the lifetime of a session.

use vstd::prelude::*;

verus! {

/// One tool that a child offers.
#[derive(Debug)]
pub struct ToolDescriptor {
    /// The name by which the tool is called; unique within a registry.
    pub name: String,
    /// The schema of the tool's parameters, as the child sent it.
    pub schema: String,
    /// A description for human readers.
    pub description: String,
}

impl ToolDescriptor {
    /// A copy of this descriptor.
    pub fn duplicate(&self) -> (res: ToolDescriptor)
        ensures
            res == *self,
    {
        ToolDescriptor {
            name: self.name.clone(),
            schema: self.schema.clone(),
            description: self.description.clone(),
        }
    }
}

/// A lookup in a registry failed.
#[derive(Debug)]
pub enum RegistryError {
    /// No tool of this name was advertised.
    UnknownTool(String),
}

/// Whether some descriptor in `tools` is named `name`.
pub open spec fn has_name(tools: Seq<ToolDescriptor>, name: Seq<char>) -> bool {
    exists|i: int| 0 <= i < tools.len() && #[trigger] tools[i].name@ == name
}

/// Whether no two descriptors in `tools` share a name.
pub open spec fn distinct_names(tools: Seq<ToolDescriptor>) -> bool {
    forall|i: int, j: int|
        0 <= i < j < tools.len() ==> #[trigger] tools[i].name@ != #[trigger] tools[j].name@
}

/// The descriptors of `tools` in order, without those whose name an earlier
/// descriptor already carries.
pub open spec fn first_of_each(tools: Seq<ToolDescriptor>) -> Seq<ToolDescriptor>
    decreases tools.len(),
{
    if tools.len() == 0 {
        Seq::empty()
    } else {
        let earlier = first_of_each(tools.drop_last());
        if has_name(earlier, tools.last().name@) {
            earlier
        } else {
            earlier.push(tools.last())
        }
    }
}

/// `first_of_each` keeps every advertised name, and keeps it once.
pub proof fn lemma_first_of_each_names(tools: Seq<ToolDescriptor>)
    ensures
        distinct_names(first_of_each(tools)),
        forall|name: Seq<char>| has_name(first_of_each(tools), name) <==> has_name(tools, name),
    decreases tools.len(),
{
    if tools.len() > 0 {
        let init = tools.drop_last();
        let earlier = first_of_each(init);
        let kept = first_of_each(tools);
        lemma_first_of_each_names(init);
        assert forall|name: Seq<char>| has_name(kept, name) <==> has_name(tools, name) by {
            if has_name(kept, name) {
                let i = choose|i: int| 0 <= i < kept.len() && #[trigger] kept[i].name@ == name;
                if i < earlier.len() {
                    assert(earlier[i].name@ == name);
                    assert(has_name(init, name));
                    let j = choose|j: int| 0 <= j < init.len() && #[trigger] init[j].name@ == name;
                    assert(tools[j].name@ == name);
                } else {
                    assert(tools[tools.len() - 1].name@ == name);
                }
            }
            if has_name(tools, name) {
                let j = choose|j: int| 0 <= j < tools.len() && #[trigger] tools[j].name@ == name;
                if j < init.len() {
                    assert(init[j].name@ == name);
                    assert(has_name(init, name));
                    assert(has_name(earlier, name));
                    let i = choose|i: int|
                        0 <= i < earlier.len() && #[trigger] earlier[i].name@ == name;
                    assert(kept[i].name@ == name);
                } else {
                    if !has_name(earlier, name) {
                        assert(kept[kept.len() - 1].name@ == name);
                    } else {
                        let i = choose|i: int|
                            0 <= i < earlier.len() && #[trigger] earlier[i].name@ == name;
                        assert(kept[i].name@ == name);
                    }
                }
            }
        }
    }
}

/// A list that already names each tool once is kept as it is.
pub proof fn lemma_first_of_each_identity(tools: Seq<ToolDescriptor>)
    requires
        distinct_names(tools),
    ensures
        first_of_each(tools) == tools,
    decreases tools.len(),
{
    if tools.len() > 0 {
        let init = tools.drop_last();
        lemma_first_of_each_identity(init);
        if has_name(init, tools.last().name@) {
            let i = choose|i: int|
                0 <= i < init.len() && #[trigger] init[i].name@ == tools.last().name@;
            assert(tools[i].name@ == tools[tools.len() - 1].name@);
        }
        assert(init.push(tools.last()) =~= tools);
    }
}

/// The tools of one session, each name once, in the order in which the child
/// advertised them.
#[derive(Debug)]
pub struct ToolRegistry {
    tools: Vec<ToolDescriptor>,
}

impl View for ToolRegistry {
    type V = Seq<ToolDescriptor>;

    closed spec fn view(&self) -> Seq<ToolDescriptor> {
        self.tools@
    }
}

/// The index of the descriptor named `name`, if `tools` holds one.
fn position_of(tools: &Vec<ToolDescriptor>, name: &String) -> (res: Option<usize>)
    ensures
        match res {
            Some(i) => i < tools@.len() && tools@[i as int].name@ == name@ && forall|j: int|
                0 <= j < i ==> #[trigger] tools@[j].name@ != name@,
            None => !has_name(tools@, name@),
        },
{
    let mut i: usize = 0;
    while i < tools.len()
        invariant
            i <= tools@.len(),
            forall|j: int| 0 <= j < i ==> #[trigger] tools@[j].name@ != name@,
        decreases tools@.len() - i,
    {
        if tools[i].name == *name {
            return Some(i);
        }
        i += 1;
    }
    None
}

impl ToolRegistry {
    /// Whether the registry is well formed: no two tools share a name.
    pub open spec fn wf(&self) -> bool {
        distinct_names(self@)
    }

    /// A registry without tools.
    pub fn new() -> (res: ToolRegistry)
        ensures
            res@ == Seq::<ToolDescriptor>::empty(),
            res.wf(),
    {
        ToolRegistry { tools: Vec::new() }
    }

    /// The registry of what a child advertised. Where the child names a tool
    /// more than once, the first descriptor of that name stands.
    pub fn from_advertised(advertised: &Vec<ToolDescriptor>) -> (res: ToolRegistry)
        ensures
            res@ == first_of_each(advertised@),
            res.wf(),
            distinct_names(advertised@) ==> res@ == advertised@,
    {
        let mut tools: Vec<ToolDescriptor> = Vec::new();
        let mut i: usize = 0;
        while i < advertised.len()
            invariant
                i <= advertised@.len(),
                tools@ == first_of_each(advertised@.take(i as int)),
            decreases advertised@.len() - i,
        {
            proof {
                let next = advertised@.take(i + 1);
                assert(next.drop_last() =~= advertised@.take(i as int));
                assert(next.last() == advertised@[i as int]);
            }
            if position_of(&tools, &advertised[i].name).is_none() {
                tools.push(advertised[i].duplicate());
            }
            i += 1;
        }
        proof {
            assert(advertised@.take(i as int) =~= advertised@);
            lemma_first_of_each_names(advertised@);
            if distinct_names(advertised@) {
                lemma_first_of_each_identity(advertised@);
            }
        }
        ToolRegistry { tools }
    }

    /// The tools in the order in which they were advertised.
    pub fn list(&self) -> (res: &Vec<ToolDescriptor>)
        ensures
            res@ == self@,
    {
        &self.tools
    }

    /// How many tools the registry holds.
    pub fn len(&self) -> (res: usize)
        ensures
            res == self@.len(),
    {
        self.tools.len()
    }

    /// Whether a tool of this name was advertised.
    pub fn contains(&self, name: &str) -> (res: bool)
        ensures
            res == has_name(self@, name@),
    {
        let owned = name.to_owned();
        position_of(&self.tools, &owned).is_some()
    }

    /// The descriptor of the tool named `name`.
    pub fn describe(&self, name: &str) -> (res: Result<&ToolDescriptor, RegistryError>)
        ensures
            match res {
                Ok(tool) => self@.contains(*tool) && tool.name@ == name@,
                Err(RegistryError::UnknownTool(unknown)) => !has_name(self@, name@) && unknown@
                    == name@,
            },
    {
        let owned = name.to_owned();
        match position_of(&self.tools, &owned) {
            Some(i) => {
                assert(self@[i as int] == self.tools@[i as int]);
                Ok(&self.tools[i])
            },
            None => Err(RegistryError::UnknownTool(owned)),
        }
    }
}

} // verus!
