use vstd::prelude::*;

verus! {

/// The directories that are open right now, root first. The index of a
/// directory is its depth; the last one is the directory being enumerated.
#[derive(Clone, Debug)]
pub struct TraversalStack {
    dirs: Vec<String>,
}

impl View for TraversalStack {
    type V = Seq<Seq<char>>;

    closed spec fn view(&self) -> Seq<Seq<char>> {
        self.dirs@.map_values(|s: String| s@)
    }
}

impl TraversalStack {
    /// A stack with no open directory.
    pub fn new() -> (s: TraversalStack)
        ensures
            s@ == Seq::<Seq<char>>::empty(),
    {
        let s = TraversalStack { dirs: Vec::new() };
        assert(s@ =~= Seq::<Seq<char>>::empty());
        s
    }

    /// The number of open directories.
    pub fn len(&self) -> (n: usize)
        ensures
            n == self@.len(),
    {
        self.dirs.len()
    }

    /// Whether no directory is open.
    pub fn is_empty(&self) -> (b: bool)
        ensures
            b == (self@.len() == 0),
    {
        self.dirs.len() == 0
    }

    /// The depth of the directory being enumerated: the root is at depth 0.
    pub fn depth(&self) -> (d: Option<usize>)
        ensures
            d is Some <==> self@.len() > 0,
            d is Some ==> d.unwrap() == self@.len() - 1,
    {
        let n: usize = self.dirs.len();
        if n == 0 {
            None
        } else {
            Some(n - 1)
        }
    }

    /// The path of the directory being enumerated.
    pub fn top(&self) -> (p: Option<&String>)
        ensures
            p is Some <==> self@.len() > 0,
            p is Some ==> p.unwrap()@ == self@.last(),
    {
        let n: usize = self.dirs.len();
        if n == 0 {
            None
        } else {
            Some(&self.dirs[n - 1])
        }
    }

    /// Descends: the directory at `path` becomes the one being enumerated.
    pub fn push(&mut self, path: String)
        ensures
            final(self)@ == old(self)@.push(path@),
    {
        self.dirs.push(path);
        assert(self@ =~= old(self)@.push(path@));
    }

    /// Ascends: closes the directory being enumerated and hands back its
    /// path, or `None` where nothing is open.
    pub fn pop(&mut self) -> (p: Option<String>)
        ensures
            p is Some <==> old(self)@.len() > 0,
            p is Some ==> p.unwrap()@ == old(self)@.last() && final(self)@ == old(self)@.drop_last(),
            p is None ==> final(self)@ == old(self)@,
    {
        let p = self.dirs.pop();
        assert(p is Some ==> self@ =~= old(self)@.drop_last());
        assert(p is None ==> self@ =~= old(self)@);
        p
    }
}

} // verus!
