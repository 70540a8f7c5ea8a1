//! The symbol table: the jump labels of a program and their addresses.
use vstd::prelude::*;
use crate::text::chars_of;

verus! {

/// The address a table of `(name, address)` entries gives `name`: that of the
/// entry added last under that name, or `None` where there is none.
pub open spec fn lookup(entries: Seq<(Seq<char>, u16)>, name: Seq<char>) -> Option<u16>
    decreases entries.len(),
{
    if entries.len() == 0 {
        None
    } else if entries.last().0 == name {
        Some(entries.last().1)
    } else {
        lookup(entries.drop_last(), name)
    }
}

/// One jump label and its address.
pub struct Label {
    name: Vec<char>,
    address: u16,
}

/// Jump labels in the order they were added, with their addresses.
pub struct SymbolTable {
    labels: Vec<Label>,
}

impl View for SymbolTable {
    type V = Seq<(Seq<char>, u16)>;

    closed spec fn view(&self) -> Seq<(Seq<char>, u16)> {
        Seq::new(self.labels@.len(), |i: int| (self.labels@[i].name@, self.labels@[i].address))
    }
}

/// Whether the characters `a` and `b` are the same.
fn chars_equal(a: &Vec<char>, b: &Vec<char>) -> (r: bool)
    ensures
        r == (a@ == b@),
{
    if a.len() != b.len() {
        return false;
    }
    let mut i: usize = 0;
    while i < a.len()
        invariant
            i <= a.len() == b.len(),
            forall|j: int| 0 <= j < i ==> a@[j] == b@[j],
        decreases a.len() - i,
    {
        if a[i] != b[i] {
            return false;
        }
        i = i + 1;
    }
    assert(a@ =~= b@);
    true
}

impl SymbolTable {
    /// An empty table.
    pub fn new() -> (t: SymbolTable)
        ensures
            t@ == Seq::<(Seq<char>, u16)>::empty(),
    {
        let t = SymbolTable { labels: Vec::new() };
        assert(t@ =~= Seq::<(Seq<char>, u16)>::empty());
        t
    }

    /// The number of labels added.
    pub fn len(&self) -> (n: usize)
        ensures
            n == self@.len(),
    {
        self.labels.len()
    }

    /// Adds the label named by the characters `name` at `address`.
    pub fn add_label_chars(&mut self, name: Vec<char>, address: u16)
        ensures
            final(self)@ == old(self)@.push((name@, address)),
    {
        self.labels.push(Label { name, address });
        assert(final(self)@ =~= old(self)@.push((name@, address)));
    }

    /// Adds the label `name` at `address`.
    pub fn add_label(&mut self, name: &str, address: u16)
        ensures
            final(self)@ == old(self)@.push((name@, address)),
    {
        let v = chars_of(name);
        self.add_label_chars(v, address);
    }

    /// The address of the label named by the characters `name`, if any.
    pub fn find_address_chars(&self, name: &Vec<char>) -> (r: Option<u16>)
        ensures
            r == lookup(self@, name@),
    {
        let mut i = self.labels.len();
        assert(self@.take(i as int) =~= self@);
        while i > 0
            invariant
                i <= self.labels@.len(),
                lookup(self@, name@) == lookup(self@.take(i as int), name@),
            decreases i,
        {
            let ghost pre = self@.take(i as int);
            assert(pre.last() == (self.labels@[i - 1].name@, self.labels@[i - 1].address));
            if chars_equal(&self.labels[i - 1].name, name) {
                return Some(self.labels[i - 1].address);
            }
            assert(pre.drop_last() =~= self@.take(i - 1));
            i = i - 1;
        }
        None
    }

    /// The address of the label `name`, if any.
    pub fn find_address(&self, name: &str) -> (r: Option<u16>)
        ensures
            r == lookup(self@, name@),
    {
        let v = chars_of(name);
        self.find_address_chars(&v)
    }
}

/// A label just added is found at the address it was added with.
pub proof fn lemma_find_after_add(entries: Seq<(Seq<char>, u16)>, name: Seq<char>, address: u16)
    ensures
        lookup(entries.push((name, address)), name) == Some(address),
{
}

/// Adding a label leaves every other name's address as it was.
pub proof fn lemma_find_other_after_add(
    entries: Seq<(Seq<char>, u16)>,
    name: Seq<char>,
    address: u16,
    other: Seq<char>,
)
    requires
        other != name,
    ensures
        lookup(entries.push((name, address)), other) == lookup(entries, other),
{
    assert(entries.push((name, address)).drop_last() =~= entries);
}

} // verus!
