//! The story graph: pages, links between them, link destinations, prompts,
//! and the actions a link can fire.
//!
//! A link's page destination is a tagged reference: during loading it is a
//! raw textual page ID, and the loader's resolution pass replaces it with a
//! direct index into the page table, so an unresolved reference cannot leak
//! into play.

use vstd::prelude::*;

use crate::condition::{clone_condition, cond_view, Condition, ConditionV};
use crate::variable::{clone_variable, ValueV, Variable};

verus! {

broadcast use vstd::std_specs::vec::group_vec_axioms;

/// A page identifier: the unique textual name of a page.
pub type PageID = String;

/// A reference to a page: either a raw textual ID (only while loading) or a
/// resolved index into the story graph's page table.
#[derive(Debug)]
pub enum PageRef {
    Name(PageID),
    Resolved(usize),
}

/// The destination of a link.
#[derive(Debug)]
pub enum LinkDest {
    /// Go to a specific page.
    Page(PageRef),
    /// Stay on the current page.
    CurrentPage,
    /// Go back to the previous page.
    PrevPage,
    /// End the game with a message.
    EndGame(String),
}

/// A queued request for player input, optionally bound to a variable.
#[derive(Debug)]
pub struct Prompt {
    pub text: String,
    pub variable: Option<String>,
}

/// An atomic state mutation or destination proposal, run when a link is
/// followed.
#[derive(Debug)]
pub enum LinkAction {
    /// Set a variable to a literal value of the same tag.
    SetVar { name: String, value: Variable },
    /// Add a signed delta to an integer variable, clamped, never wrapping.
    ModNum { name: String, value: i32 },
    /// Flip a boolean variable.
    ToggleBool(String),
    /// Propose a new destination; the last proposal of a traversal wins.
    SetDest(LinkDest),
    /// Enqueue a prompt for the caller to answer.
    Prompt(Prompt),
    /// Acquire one instance of the named item.
    AcquireItem(String),
    /// Drop the oldest held instance of the named item.
    DropItem(String),
    /// Consume one use of the oldest held instance of the named item.
    UseItem(String),
}

/// A condition plus the actions to run when it holds at traversal time.
#[derive(Debug)]
pub struct LinkTrigger {
    pub condition: Condition,
    pub actions: Vec<LinkAction>,
}

/// A labeled choice on a page.
#[derive(Debug)]
pub struct Link {
    pub text: String,
    pub dest: LinkDest,
    pub triggers: Vec<LinkTrigger>,
    pub actions: Vec<LinkAction>,
}

/// A node of narrative content with outgoing links.
///
/// `parents` holds back-references (indices of pages that link here); they
/// are informational only and never used for traversal.
#[derive(Debug)]
pub struct Page {
    pub id: PageID,
    pub title: Option<String>,
    pub content: String,
    pub prompt: Option<String>,
    pub links: Vec<Link>,
    pub parents: Vec<usize>,
}

/// The mathematical form of a [`PageRef`].
pub enum PageRefV {
    Name(Seq<char>),
    Resolved(int),
}

/// The mathematical form of a [`LinkDest`].
pub enum LinkDestV {
    Page(PageRefV),
    CurrentPage,
    PrevPage,
    EndGame(Seq<char>),
}

/// The mathematical form of a [`Prompt`].
pub struct PromptV {
    pub text: Seq<char>,
    pub variable: Option<Seq<char>>,
}

/// The mathematical form of a [`LinkAction`].
pub enum LinkActionV {
    SetVar { name: Seq<char>, value: ValueV },
    ModNum { name: Seq<char>, value: int },
    ToggleBool(Seq<char>),
    SetDest(LinkDestV),
    Prompt(PromptV),
    AcquireItem(Seq<char>),
    DropItem(Seq<char>),
    UseItem(Seq<char>),
}

/// The mathematical form of a [`LinkTrigger`].
pub struct LinkTriggerV {
    pub condition: ConditionV,
    pub actions: Seq<LinkActionV>,
}

/// The mathematical form of a [`Link`].
pub struct LinkV {
    pub text: Seq<char>,
    pub dest: LinkDestV,
    pub triggers: Seq<LinkTriggerV>,
    pub actions: Seq<LinkActionV>,
}

/// The mathematical form of a [`Page`].
pub struct PageV {
    pub id: Seq<char>,
    pub title: Option<Seq<char>>,
    pub content: Seq<char>,
    pub prompt: Option<Seq<char>>,
    pub links: Seq<LinkV>,
    pub parents: Seq<int>,
}

impl View for PageRef {
    type V = PageRefV;

    open spec fn view(&self) -> PageRefV {
        match self {
            PageRef::Name(id) => PageRefV::Name(id@),
            PageRef::Resolved(i) => PageRefV::Resolved(*i as int),
        }
    }
}

impl View for LinkDest {
    type V = LinkDestV;

    open spec fn view(&self) -> LinkDestV {
        match self {
            LinkDest::Page(r) => LinkDestV::Page(r@),
            LinkDest::CurrentPage => LinkDestV::CurrentPage,
            LinkDest::PrevPage => LinkDestV::PrevPage,
            LinkDest::EndGame(msg) => LinkDestV::EndGame(msg@),
        }
    }
}

impl View for Prompt {
    type V = PromptV;

    open spec fn view(&self) -> PromptV {
        PromptV {
            text: self.text@,
            variable: match self.variable {
                Some(ref name) => Some(name@),
                None => None,
            },
        }
    }
}

impl View for LinkAction {
    type V = LinkActionV;

    open spec fn view(&self) -> LinkActionV {
        match self {
            LinkAction::SetVar { name, value } => LinkActionV::SetVar {
                name: name@,
                value: value@,
            },
            LinkAction::ModNum { name, value } => LinkActionV::ModNum {
                name: name@,
                value: *value as int,
            },
            LinkAction::ToggleBool(name) => LinkActionV::ToggleBool(name@),
            LinkAction::SetDest(d) => LinkActionV::SetDest(d@),
            LinkAction::Prompt(p) => LinkActionV::Prompt(p@),
            LinkAction::AcquireItem(name) => LinkActionV::AcquireItem(name@),
            LinkAction::DropItem(name) => LinkActionV::DropItem(name@),
            LinkAction::UseItem(name) => LinkActionV::UseItem(name@),
        }
    }
}

/// The mathematical form of a list of actions.
pub open spec fn acts_view(s: Seq<LinkAction>) -> Seq<LinkActionV> {
    s.map_values(|a: LinkAction| a@)
}

impl View for LinkTrigger {
    type V = LinkTriggerV;

    open spec fn view(&self) -> LinkTriggerV {
        LinkTriggerV { condition: cond_view(self.condition), actions: acts_view(self.actions@) }
    }
}

/// The mathematical form of a list of triggers.
pub open spec fn trigs_view(s: Seq<LinkTrigger>) -> Seq<LinkTriggerV> {
    s.map_values(|t: LinkTrigger| t@)
}

impl View for Link {
    type V = LinkV;

    open spec fn view(&self) -> LinkV {
        LinkV {
            text: self.text@,
            dest: self.dest@,
            triggers: trigs_view(self.triggers@),
            actions: acts_view(self.actions@),
        }
    }
}

impl View for Page {
    type V = PageV;

    open spec fn view(&self) -> PageV {
        PageV {
            id: self.id@,
            title: match self.title {
                Some(ref t) => Some(t@),
                None => None,
            },
            content: self.content@,
            prompt: match self.prompt {
                Some(ref p) => Some(p@),
                None => None,
            },
            links: self.links@.map_values(|l: Link| l@),
            parents: self.parents@.map_values(|i: usize| i as int),
        }
    }
}

/// The mathematical form of a page table.
pub open spec fn pages_view(s: Seq<Page>) -> Seq<PageV> {
    s.map_values(|p: Page| p@)
}

/// A loaded, fully resolved story graph: the page table and the index of
/// the entry page.
#[derive(Debug)]
pub struct StoryGraph {
    pub pages: Vec<Page>,
    pub entry: usize,
}

impl Page {
    /// Builds a fresh page with no recorded back-references.
    pub fn new(
        id: PageID,
        title: Option<String>,
        content: String,
        prompt: Option<String>,
        links: Vec<Link>,
    ) -> (p: Page)
        ensures
            p.id == id,
            p.title == title,
            p.content == content,
            p.prompt == prompt,
            p.links == links,
            p.parents@ == Seq::<usize>::empty(),
    {
        Page { id, title, content, prompt, links, parents: Vec::new() }
    }
}

impl LinkDest {
    /// Returns the resolved page index of a page destination, `None` for any
    /// other destination or for a reference the loader has not resolved.
    pub fn get_page(&self) -> (r: Option<usize>)
        ensures
            r == match *self {
                LinkDest::Page(PageRef::Resolved(i)) => Some(i),
                _ => None::<usize>,
            },
    {
        match self {
            LinkDest::Page(PageRef::Resolved(i)) => Some(*i),
            _ => None,
        }
    }
}

impl Default for LinkDest {
    /// The default destination is to stay on the current page.
    fn default() -> (r: Self)
        ensures
            r is CurrentPage,
    {
        LinkDest::CurrentPage
    }
}

/// Copies a page reference; the copy's mathematical form equals the
/// original's.
pub fn clone_page_ref(r: &PageRef) -> (c: PageRef)
    ensures
        c@ == r@,
{
    match r {
        PageRef::Name(id) => PageRef::Name(id.clone()),
        PageRef::Resolved(i) => PageRef::Resolved(*i),
    }
}

/// Copies a destination; the copy's mathematical form equals the original's.
pub fn clone_link_dest(d: &LinkDest) -> (c: LinkDest)
    ensures
        c@ == d@,
{
    match d {
        LinkDest::Page(r) => LinkDest::Page(clone_page_ref(r)),
        LinkDest::CurrentPage => LinkDest::CurrentPage,
        LinkDest::PrevPage => LinkDest::PrevPage,
        LinkDest::EndGame(msg) => LinkDest::EndGame(msg.clone()),
    }
}

/// Copies a prompt; the copy's mathematical form equals the original's.
pub fn clone_prompt(p: &Prompt) -> (c: Prompt)
    ensures
        c@ == p@,
{
    Prompt {
        text: p.text.clone(),
        variable: match &p.variable {
            Some(name) => Some(name.clone()),
            None => None,
        },
    }
}

/// Copies an action; the copy's mathematical form equals the original's.
pub fn clone_action(a: &LinkAction) -> (c: LinkAction)
    ensures
        c@ == a@,
{
    match a {
        LinkAction::SetVar { name, value } => LinkAction::SetVar {
            name: name.clone(),
            value: clone_variable(value),
        },
        LinkAction::ModNum { name, value } => LinkAction::ModNum {
            name: name.clone(),
            value: *value,
        },
        LinkAction::ToggleBool(name) => LinkAction::ToggleBool(name.clone()),
        LinkAction::SetDest(d) => LinkAction::SetDest(clone_link_dest(d)),
        LinkAction::Prompt(p) => LinkAction::Prompt(clone_prompt(p)),
        LinkAction::AcquireItem(name) => LinkAction::AcquireItem(name.clone()),
        LinkAction::DropItem(name) => LinkAction::DropItem(name.clone()),
        LinkAction::UseItem(name) => LinkAction::UseItem(name.clone()),
    }
}

/// Copies a list of actions; the copy's mathematical form equals the
/// original's.
pub fn clone_actions(v: &Vec<LinkAction>) -> (r: Vec<LinkAction>)
    ensures
        acts_view(r@) == acts_view(v@),
{
    let mut r: Vec<LinkAction> = Vec::new();
    let mut i: usize = 0;
    while i < v.len()
        invariant
            i <= v.len(),
            r@.len() == i,
            forall|j: int| 0 <= j < i ==> (#[trigger] r@[j])@ == v@[j]@,
        decreases v.len() - i,
    {
        r.push(clone_action(&v[i]));
        i = i + 1;
    }
    assert(acts_view(r@) =~= acts_view(v@));
    r
}

/// Copies a trigger; the copy's mathematical form equals the original's.
pub fn clone_trigger(t: &LinkTrigger) -> (c: LinkTrigger)
    ensures
        c@ == t@,
{
    LinkTrigger { condition: clone_condition(&t.condition), actions: clone_actions(&t.actions) }
}

/// Copies a list of triggers; the copy's mathematical form equals the
/// original's.
pub fn clone_triggers(v: &Vec<LinkTrigger>) -> (r: Vec<LinkTrigger>)
    ensures
        trigs_view(r@) == trigs_view(v@),
{
    let mut r: Vec<LinkTrigger> = Vec::new();
    let mut i: usize = 0;
    while i < v.len()
        invariant
            i <= v.len(),
            r@.len() == i,
            forall|j: int| 0 <= j < i ==> (#[trigger] r@[j])@ == v@[j]@,
        decreases v.len() - i,
    {
        r.push(clone_trigger(&v[i]));
        i = i + 1;
    }
    assert(trigs_view(r@) =~= trigs_view(v@));
    r
}

} // verus!
