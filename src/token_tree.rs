use vstd::prelude::*;

use crate::text::{chars_of, string_of};
use crate::token::{Token, TokenKind};

verus! {

/// A token with the ordered sequence of its child trees.
#[derive(Debug)]
pub struct TokenTree {
    value: Token,
    children: Vec<TokenTree>,
}

impl TokenTree {
    pub closed spec fn root(&self) -> (Seq<char>, TokenKind) {
        self.value@
    }

    pub closed spec fn kids(&self) -> Seq<TokenTree> {
        self.children@
    }

    pub fn new(root: Token) -> (r: Self)
        ensures
            r.root() == root@,
            r.kids() == Seq::<TokenTree>::empty(),
    {
        TokenTree { value: root, children: Vec::new() }
    }

    pub fn add_child(&mut self, value: TokenTree)
        ensures
            final(self).root() == old(self).root(),
            final(self).kids() == old(self).kids().push(value),
    {
        self.children.push(value);
    }

    pub fn get_val(&self) -> (r: &Token)
        ensures
            r@ == self.root(),
    {
        &self.value
    }

    pub fn get_children(&self) -> (r: &Vec<TokenTree>)
        ensures
            r@ == self.kids(),
    {
        &self.children
    }
}

/// The state of a builder in mathematical terms: the child lists of the
/// nodes, the path of open nodes from the root, and the nodes' tokens.
pub struct BuilderView {
    pub tree: Seq<Seq<usize>>,
    pub context: Seq<usize>,
    pub values: Seq<(Seq<char>, TokenKind)>,
}

impl BuilderView {
    /// Every node has a child list; each child was created after its parent;
    /// every open node exists.
    pub open spec fn wf(self) -> bool {
        &&& self.tree.len() == self.values.len()
        &&& forall|i: int, k: int|
            0 <= i < self.tree.len() && 0 <= k < self.tree[i].len() ==> i < #[trigger] self.tree[i][k]
                < self.tree.len()
        &&& forall|j: int| 0 <= j < self.context.len() ==> #[trigger] self.context[j] < self.values.len()
    }

    /// The state after a new node for `t` is created as the last child of
    /// the current context and becomes the current context.
    pub open spec fn opened(self, t: (Seq<char>, TokenKind)) -> BuilderView {
        let id = self.values.len() as usize;
        BuilderView {
            tree: if self.context.len() > 0 {
                self.tree.update(self.context.last() as int, self.tree[self.context.last() as int].push(id)).push(seq![])
            } else {
                self.tree.push(seq![])
            },
            context: self.context.push(id),
            values: self.values.push(t),
        }
    }

    /// As `opened`, but the new node becomes the first child of the current
    /// context.
    pub open spec fn opened_first(self, t: (Seq<char>, TokenKind)) -> BuilderView {
        let id = self.values.len() as usize;
        BuilderView {
            tree: if self.context.len() > 0 {
                self.tree.update(self.context.last() as int, seq![id] + self.tree[self.context.last() as int]).push(seq![])
            } else {
                self.tree.push(seq![])
            },
            context: self.context.push(id),
            values: self.values.push(t),
        }
    }

    /// The state after the current context is closed; the root stays open.
    pub open spec fn closed(self) -> BuilderView {
        if self.context.len() > 1 {
            BuilderView { context: self.context.drop_last(), ..self }
        } else {
            self
        }
    }

    /// The text view of node `id` and everything below it: one line per
    /// node, `prefix` then a branch mark (the last child's differs) then the
    /// node's text, its children indented under it.
    pub open spec fn rendered(self, id: int, prefix: Seq<char>, last: bool) -> Seq<char>
        decreases self.values.len() - id, self.tree[id].len() + 1,
    {
        if self.wf() && 0 <= id < self.values.len() {
            let mark = if last { seq!['`', '-', ' '] } else { seq!['|', '-', ' '] };
            let indent = if last { seq![' ', ' ', ' '] } else { seq!['|', ' ', ' '] };
            prefix + mark + self.values[id].0 + seq!['\n'] + self.rendered_children(id, 0, prefix + indent)
        } else {
            seq![]
        }
    }

    /// The text views of the children of node `id` from the `k`-th on.
    pub open spec fn rendered_children(self, id: int, k: int, prefix: Seq<char>) -> Seq<char>
        decreases self.values.len() - id, self.tree[id].len() - k,
    {
        if self.wf() && 0 <= id < self.values.len() && 0 <= k < self.tree[id].len() {
            self.rendered(self.tree[id][k] as int, prefix, k == self.tree[id].len() - 1)
                + self.rendered_children(id, k + 1, prefix)
        } else {
            seq![]
        }
    }

    /// `t` is the tree that hangs from node `id`.
    pub open spec fn reflects(self, t: TokenTree, id: int) -> bool
        decreases t,
    {
        &&& 0 <= id < self.values.len()
        &&& t.root() == self.values[id]
        &&& t.kids().len() == self.tree[id].len()
        &&& forall|k: int|
            0 <= k < t.kids().len() ==> self.reflects(#[trigger] t.kids()[k], self.tree[id][k] as int)
    }
}

/// An incremental n-ary tree: an arena of nodes, each node's child list, and
/// the stack of open nodes (the context) from the root to the node that
/// currently receives children.
#[derive(Debug)]
pub struct TreeBuilder {
    tree: Vec<Vec<usize>>,
    context: Vec<usize>,
    values: Vec<Token>,
}

impl View for TreeBuilder {
    type V = BuilderView;

    closed spec fn view(&self) -> BuilderView {
        BuilderView {
            tree: self.tree@.map_values(|v: Vec<usize>| v@),
            context: self.context@,
            values: self.values@.map_values(|t: Token| t@),
        }
    }
}


impl TreeBuilder {
    pub fn new() -> (r: Self)
        ensures
            r@.tree == Seq::<Seq<usize>>::empty(),
            r@.context == Seq::<usize>::empty(),
            r@.values == Seq::<(Seq<char>, TokenKind)>::empty(),
            r@.wf(),
    {
        let r = TreeBuilder { tree: Vec::new(), context: Vec::new(), values: Vec::new() };
        assert(r@.tree =~= Seq::<Seq<usize>>::empty());
        assert(r@.values =~= Seq::<(Seq<char>, TokenKind)>::empty());
        r
    }

    /// The token of the open node at `index` levels from the innermost one
    /// (1 is the current context).
    pub fn get(&self, index: usize) -> (r: &Token)
        requires
            self@.wf(),
            1 <= index <= self@.context.len(),
        ensures
            r@ == self@.values[self@.context[self@.context.len() - index] as int],
    {
        &self.values[self.context[self.context.len() - index]]
    }

    /// Creates a node for `value` as the last child of the current context
    /// and makes it the current context.
    pub fn push(&mut self, value: Token)
        requires
            old(self)@.wf(),
        ensures
            final(self)@ == old(self)@.opened(value@),
            final(self)@.wf(),
    {
        let ghost pre = self@;
        let id = self.values.len();
        match self.context.last() {
            Some(last) => {
                let last = *last;
                assert(pre.context[pre.context.len() - 1] < pre.values.len());
                assert(self.tree@.len() == pre.tree.len());
                self.tree[last].push(id);
            },
            None => (),
        }
        self.tree.push(Vec::new());
        self.context.push(id);
        self.values.push(value);
        proof {
            let post = pre.opened(value@);
            assert(self@.tree =~= post.tree);
            assert(self@.values =~= post.values);
            assert(self@.context =~= post.context);
        }
    }

    /// Creates a node for `value` as the first child of the current context
    /// and makes it the current context.
    pub fn push_first(&mut self, value: Token)
        requires
            old(self)@.wf(),
        ensures
            final(self)@ == old(self)@.opened_first(value@),
            final(self)@.wf(),
    {
        let ghost pre = self@;
        let id = self.values.len();
        match self.context.last() {
            Some(last) => {
                let last = *last;
                assert(pre.context[pre.context.len() - 1] < pre.values.len());
                assert(self.tree@.len() == pre.tree.len());
                self.tree[last].insert(0, id);
            },
            None => (),
        }
        self.tree.push(Vec::new());
        self.context.push(id);
        self.values.push(value);
        proof {
            let post = pre.opened_first(value@);
            if pre.context.len() > 0 {
                let p = pre.context.last() as int;
                assert(self@.tree[p] =~= post.tree[p]);
            }
            assert(self@.tree =~= post.tree);
            assert(self@.values =~= post.values);
            assert(self@.context =~= post.context);
        }
    }

    /// Closes the current context; the root is never closed.
    pub fn pop(&mut self)
        requires
            old(self)@.wf(),
        ensures
            final(self)@ == old(self)@.closed(),
            final(self)@.wf(),
    {
        if self.context.len() > 1 {
            self.context.pop();
        }
        assert(self@.context =~= old(self)@.closed().context);
    }

    /// Attaches a childless node for `value` without changing the context
    /// (unless the builder was empty, in which case the node is the root).
    pub fn push_one(&mut self, value: Token)
        requires
            old(self)@.wf(),
        ensures
            final(self)@ == old(self)@.opened(value@).closed(),
            final(self)@.wf(),
    {
        self.push(value);
        self.pop();
    }

    pub fn pipe_push(self, value: Token) -> (r: Self)
        requires
            self@.wf(),
        ensures
            r@ == self@.opened(value@),
            r@.wf(),
    {
        let mut b = self;
        b.push(value);
        b
    }

    pub fn pipe_pop(self) -> (r: Self)
        requires
            self@.wf(),
        ensures
            r@ == self@.closed(),
            r@.wf(),
    {
        let mut b = self;
        b.pop();
        b
    }

    pub fn pipe_push_one(self, value: Token) -> (r: Self)
        requires
            self@.wf(),
        ensures
            r@ == self@.opened(value@).closed(),
            r@.wf(),
    {
        self.pipe_push(value).pipe_pop()
    }

    fn partial_build(&self, id: usize) -> (r: TokenTree)
        requires
            self@.wf(),
            id < self@.values.len(),
        ensures
            self@.reflects(r, id as int),
        decreases self@.values.len() - id,
    {
        let ghost v = self@;
        let mut ans = TokenTree::new(self.values[id].duplicate());
        let kids = &self.tree[id];
        assert(kids@ == v.tree[id as int]);
        let mut k: usize = 0;
        while k < kids.len()
            invariant
                v == self@,
                v.wf(),
                id < v.values.len(),
                kids@ == v.tree[id as int],
                k <= kids@.len(),
                ans.root() == v.values[id as int],
                ans.kids().len() == k,
                forall|j: int| 0 <= j < k ==> v.reflects(#[trigger] ans.kids()[j], v.tree[id as int][j] as int),
            decreases kids@.len() - k,
        {
            assert(id < kids@[k as int] < v.values.len());
            let child = self.partial_build(kids[k]);
            ans.add_child(child);
            k += 1;
        }
        ans
    }

    /// The finished tree, from the root.
    pub fn build(self) -> (r: TokenTree)
        requires
            self@.wf(),
            self@.context.len() > 0,
        ensures
            self@.reflects(r, self@.context[0] as int),
    {
        self.partial_build(self.context[0])
    }
    fn print(&self, out: &mut Vec<char>, node: usize, prefix: &Vec<char>, last: bool)
        requires
            self@.wf(),
            node < self@.values.len(),
        ensures
            final(out)@ == old(out)@ + self@.rendered(node as int, prefix@, last),
        decreases self@.values.len() - node,
    {
        let ghost v = self@;
        let ghost start = out@;
        let mut j: usize = 0;
        while j < prefix.len()
            invariant
                j <= prefix@.len(),
                out@ == start + prefix@.take(j as int),
            decreases prefix@.len() - j,
        {
            out.push(prefix[j]);
            assert(prefix@.take(j + 1) == prefix@.take(j as int).push(prefix@[j as int]));
            j += 1;
        }
        assert(prefix@.take(prefix@.len() as int) =~= prefix@);
        if last {
            out.push('`');
        } else {
            out.push('|');
        }
        out.push('-');
        out.push(' ');
        let text = self.values[node].text();
        let chars = chars_of(text.as_str());
        assert(chars@ == v.values[node as int].0);
        let ghost before_text = out@;
        let mut j: usize = 0;
        while j < chars.len()
            invariant
                j <= chars@.len(),
                out@ == before_text + chars@.take(j as int),
            decreases chars@.len() - j,
        {
            out.push(chars[j]);
            assert(chars@.take(j + 1) == chars@.take(j as int).push(chars@[j as int]));
            j += 1;
        }
        assert(chars@.take(chars@.len() as int) =~= chars@);
        out.push('\n');
        let mut child_prefix: Vec<char> = prefix.clone();
        if last {
            child_prefix.push(' ');
            child_prefix.push(' ');
            child_prefix.push(' ');
        } else {
            child_prefix.push('|');
            child_prefix.push(' ');
            child_prefix.push(' ');
        }
        let ghost indent = if last { seq![' ', ' ', ' '] } else { seq!['|', ' ', ' '] };
        let ghost mark = if last { seq!['`', '-', ' '] } else { seq!['|', '-', ' '] };
        assert(child_prefix@ =~= prefix@ + indent);
        assert(out@ =~= start + (prefix@ + mark + v.values[node as int].0 + seq!['\n']));
        let ghost head = out@;
        let kids = &self.tree[node];
        assert(kids@ == v.tree[node as int]);
        let mut k: usize = 0;
        while k < kids.len()
            invariant
                v == self@,
                v.wf(),
                node < v.values.len(),
                kids@ == v.tree[node as int],
                k <= kids@.len(),
                out@ + v.rendered_children(node as int, k as int, child_prefix@) == head
                    + v.rendered_children(node as int, 0, child_prefix@),
            decreases kids@.len() - k,
        {
            let ghost o = out@;
            assert(node < kids@[k as int]);
            self.print(out, kids[k], &child_prefix, k == kids.len() - 1);
            assert(out@ + v.rendered_children(node as int, k + 1, child_prefix@) =~= o
                + v.rendered_children(node as int, k as int, child_prefix@));
            k += 1;
        }
        assert(out@ =~= start + v.rendered(node as int, prefix@, last));
    }

    /// The tree as indented text, from the root: one line per node.
    pub fn render(&self) -> (r: String)
        requires
            self@.wf(),
            self@.context.len() > 0,
        ensures
            r@ == self@.rendered(self@.context[0] as int, seq![], true),
    {
        let mut out: Vec<char> = Vec::new();
        let prefix: Vec<char> = Vec::new();
        self.print(&mut out, self.context[0], &prefix, true);
        assert(out@ =~= self@.rendered(self@.context[0] as int, seq![], true));
        string_of(&out)
    }
}



} // verus!
