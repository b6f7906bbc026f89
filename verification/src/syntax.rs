//! Source as a tree of named nodes, whatever its language.
use vstd::prelude::*;
use crate::text::{join, joined, same_text, texts};

verus! {

/// A node of a syntax tree: the parser's name for what it is, what it names
/// where it is a name, the bytes of the source that it spans, and its parts in
/// source order.
#[derive(Debug)]
pub struct SyntaxNode {
    pub kind: String,
    pub text: String,
    /// The names of a path, in their order.
    pub names: Vec<String>,
    /// Whether it has what its kind may have or lack, such as `mut`.
    pub flag: bool,
    pub start: usize,
    pub end: usize,
    pub children: Vec<SyntaxNode>,
}

impl SyntaxNode {
    /// Whether the parser names the node so.
    pub open spec fn named(self, kind: Seq<char>) -> bool {
        self.kind@ == kind
    }

    pub fn is(&self, kind: &str) -> (answer: bool)
        ensures
            answer == self.named(kind@),
    {
        same_text(self.kind.as_str(), kind)
    }
}

/// How a path is written that has such names.
pub open spec fn written(names: Seq<String>) -> Seq<char> {
    joined(texts(names), "::"@)
}

pub fn is_written(names: &Vec<String>, path: &str) -> (answer: bool)
    ensures
        answer == (written(names@) == path@),
{
    let text = join(names, "::");
    same_text(text.as_str(), path)
}

/// The last of some names, or another where there is none.
pub open spec fn last_name(names: Seq<String>, other: Seq<char>) -> Seq<char> {
    if names.len() > 0 {
        names.last()@
    } else {
        other
    }
}

pub fn find_last_name(names: &Vec<String>, other: &str) -> (name: String)
    ensures
        name@ == last_name(names@, other@),
{
    if names.len() > 0 {
        names[names.len() - 1].clone()
    } else {
        other.to_owned()
    }
}

/// How many of the first `count` parts are named so.
pub open spec fn named_count(parts: Seq<SyntaxNode>, kind: Seq<char>, count: nat) -> nat
    decreases count,
{
    if count == 0 {
        0
    } else {
        named_count(parts, kind, (count - 1) as nat) + if parts[count - 1].named(kind) {
            1nat
        } else {
            0nat
        }
    }
}

pub fn count_named(parts: &Vec<SyntaxNode>, kind: &str) -> (number: usize)
    ensures
        number == named_count(parts@, kind@, parts@.len()),
{
    let mut number: usize = 0;
    let mut index: usize = 0;
    while index < parts.len()
        invariant
            index <= parts@.len(),
            number <= index,
            number == named_count(parts@, kind@, index as nat),
        decreases parts@.len() - index,
    {
        if parts[index].is(kind) {
            number += 1;
        }
        index += 1;
    }
    number
}

/// The first part from `start` on that is named so.
pub open spec fn first_named(parts: Seq<SyntaxNode>, kind: Seq<char>, start: int) -> Option<int>
    decreases parts.len() - start,
{
    if start < 0 || start >= parts.len() {
        None
    } else if parts[start].named(kind) {
        Some(start)
    } else {
        first_named(parts, kind, start + 1)
    }
}

pub fn find_named(parts: &Vec<SyntaxNode>, kind: &str) -> (found: Option<usize>)
    ensures
        match (found, first_named(parts@, kind@, 0)) {
            (Some(index), Some(expected)) => index == expected && index < parts@.len()
                && parts@[index as int].named(kind@),
            (None, None) => true,
            _ => false,
        },
{
    let mut index: usize = 0;
    while index < parts.len()
        invariant
            index <= parts@.len(),
            first_named(parts@, kind@, 0) == first_named(parts@, kind@, index as int),
        decreases parts@.len() - index,
    {
        if parts[index].is(kind) {
            return Some(index);
        }
        index += 1;
    }
    None
}

/// A tree in the making: the nodes that are open, the outermost first.
#[derive(Debug)]
pub struct TreeBuilder {
    open: Vec<SyntaxNode>,
}

impl View for TreeBuilder {
    type V = Seq<SyntaxNode>;

    closed spec fn view(&self) -> Seq<SyntaxNode> {
        self.open@
    }
}

impl TreeBuilder {
    pub fn new() -> (builder: Self)
        ensures
            builder@.len() == 0,
    {
        TreeBuilder { open: Vec::new() }
    }

    /// Opens a node within the innermost one.
    pub fn open(
        &mut self,
        kind: String,
        text: String,
        names: Vec<String>,
        flag: bool,
        start: usize,
        end: usize,
    )
        ensures
            final(self)@.len() == old(self)@.len() + 1,
            final(self)@.drop_last() == old(self)@,
            final(self)@.last().kind == kind,
            final(self)@.last().text == text,
            final(self)@.last().names == names,
            final(self)@.last().flag == flag,
            final(self)@.last().start == start,
            final(self)@.last().end == end,
            final(self)@.last().children@.len() == 0,
    {
        self.open.push(SyntaxNode { kind, text, names, flag, start, end, children: Vec::new() });
        assert(self@.drop_last() =~= old(self)@);
    }

    /// Closes the innermost node: it becomes the last part of the one around
    /// it. The outermost node stays.
    pub fn close(&mut self)
        ensures
            old(self)@.len() < 2 ==> final(self)@ == old(self)@,
            old(self)@.len() >= 2 ==> {
                let count = old(self)@.len() - 1;
                &&& final(self)@.len() == count
                &&& final(self)@.drop_last() == old(self)@.take(count - 1)
                &&& final(self)@.last().kind == old(self)@[count - 1].kind
                &&& final(self)@.last().text == old(self)@[count - 1].text
                &&& final(self)@.last().names == old(self)@[count - 1].names
                &&& final(self)@.last().flag == old(self)@[count - 1].flag
                &&& final(self)@.last().start == old(self)@[count - 1].start
                &&& final(self)@.last().end == old(self)@[count - 1].end
                &&& final(self)@.last().children@ == old(self)@[count - 1].children@.push(
                    old(self)@[count],
                )
            },
    {
        if self.open.len() < 2 {
            return ;
        }
        let done = self.open.pop().unwrap();
        let mut around = self.open.pop().unwrap();
        around.children.push(done);
        self.open.push(around);
        assert(self@.drop_last() =~= old(self)@.take(old(self)@.len() - 2));
    }

    /// The tree of the outermost node.
    pub fn finish(self) -> (tree: Option<SyntaxNode>)
        ensures
            tree is Some <==> self@.len() == 1,
            tree matches Some(root) ==> root == self@[0],
    {
        let mut open = self.open;
        if open.len() == 1 {
            open.pop()
        } else {
            None
        }
    }
}

}
