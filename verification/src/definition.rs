//! The declarative description of a subagent.
use vstd::prelude::*;

verus! {

/// The privilege envelope a subagent declares for its execution.
#[derive(Debug, Clone, Copy, PartialEq, Eq, Structural)]
pub enum SubAgentMode {
    ReadOnly,
    FullAuto,
    DangerFullAccess,
}

impl Default for SubAgentMode {
    fn default() -> (mode: Self)
        ensures
            mode == SubAgentMode::ReadOnly,
    {
        SubAgentMode::ReadOnly
    }
}

/// A subagent as loaded from its document.
#[derive(Debug)]
pub struct SubAgentDefinition {
    /// Base name of the source file, without its extension.
    pub name: String,
    /// Where the document was loaded from.
    pub path: String,
    /// Document text after the metadata block.
    pub system_prompt: String,
    pub description: Option<String>,
    pub tools_allowed: Vec<String>,
    pub tools_blocked: Vec<String>,
    pub mode: Option<SubAgentMode>,
}

/// Mathematical content of a [`SubAgentDefinition`].
pub struct SubAgentDefinitionView {
    pub name: Seq<char>,
    pub path: Seq<char>,
    pub system_prompt: Seq<char>,
    pub description: Option<Seq<char>>,
    pub tools_allowed: Seq<Seq<char>>,
    pub tools_blocked: Seq<Seq<char>>,
    pub mode: Option<SubAgentMode>,
}

impl View for SubAgentDefinition {
    type V = SubAgentDefinitionView;

    open spec fn view(&self) -> SubAgentDefinitionView {
        SubAgentDefinitionView {
            name: self.name@,
            path: self.path@,
            system_prompt: self.system_prompt@,
            description: self.description.deep_view(),
            tools_allowed: self.tools_allowed.deep_view(),
            tools_blocked: self.tools_blocked.deep_view(),
            mode: self.mode,
        }
    }
}

/// Copies a list of strings.
pub fn clone_strings(list: &Vec<String>) -> (copy: Vec<String>)
    ensures
        copy.deep_view() == list.deep_view(),
{
    let mut copy: Vec<String> = Vec::new();
    let mut i: usize = 0;
    while i < list.len()
        invariant
            i <= list.len(),
            copy.len() == i,
            forall|j: int| 0 <= j < i ==> copy[j]@ == list[j]@,
        decreases list.len() - i,
    {
        copy.push(list[i].clone());
        i += 1;
    }
    assert(copy.deep_view() =~= list.deep_view());
    copy
}

/// Copies an optional string.
pub fn clone_text(text: &Option<String>) -> (copy: Option<String>)
    ensures
        copy.deep_view() == text.deep_view(),
{
    match text {
        Some(s) => Some(s.clone()),
        None => None,
    }
}

impl Clone for SubAgentDefinition {
    fn clone(&self) -> (copy: Self)
        ensures
            copy@ == self@,
    {
        SubAgentDefinition {
            name: self.name.clone(),
            path: self.path.clone(),
            system_prompt: self.system_prompt.clone(),
            description: clone_text(&self.description),
            tools_allowed: clone_strings(&self.tools_allowed),
            tools_blocked: clone_strings(&self.tools_blocked),
            mode: self.mode,
        }
    }
}

} // verus!
