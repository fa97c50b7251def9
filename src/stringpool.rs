use vstd::prelude::*;

verus! {

/// A handle to a string held by a `StringPool`.
#[derive(Clone, Copy, PartialEq, Eq, Debug, Hash)]
pub struct StringPoolId(usize);

impl StringPoolId {
    pub closed spec fn index(&self) -> nat {
        self.0 as nat
    }
}

/// Strings stored once and referred to by handle, owned by one parse
/// session.
pub struct StringPool {
    pool: Vec<String>,
}

impl StringPool {
    /// The strings held, in the order they were added.
    pub closed spec fn contents(&self) -> Seq<Seq<char>> {
        self.pool@.map_values(|s: String| s@)
    }

    pub fn new() -> (r: StringPool)
        ensures
            r.contents().len() == 0,
    {
        let r = StringPool { pool: Vec::new() };
        assert(r.contents() =~= Seq::<Seq<char>>::empty());
        r
    }

    /// Stores `s` and returns its handle.
    pub fn add(&mut self, s: String) -> (r: StringPoolId)
        ensures
            final(self).contents() == old(self).contents().push(s@),
            r.index() == old(self).contents().len(),
    {
        let id = StringPoolId(self.pool.len());
        assert(id.index() == self.pool@.len());
        let ghost v = s@;
        self.pool.push(s);
        assert(self.contents() =~= old(self).contents().push(v));
        id
    }

    /// The string that `id` stands for.
    pub fn lookup(&self, id: StringPoolId) -> (r: &str)
        requires
            id.index() < self.contents().len(),
        ensures
            r@ == self.contents()[id.index() as int],
    {
        self.pool[id.0].as_str()
    }
}

/// Read access to a pool of strings.
pub trait ReadOnlyStringPool {
    /// The strings held, in the order they were added.
    spec fn strings(&self) -> Seq<Seq<char>>;

    fn lookup(&self, id: StringPoolId) -> (r: &str)
        requires
            id.index() < self.strings().len(),
        ensures
            r@ == self.strings()[id.index() as int];
}

impl ReadOnlyStringPool for StringPool {
    open spec fn strings(&self) -> Seq<Seq<char>> {
        self.contents()
    }

    fn lookup(&self, id: StringPoolId) -> (r: &str) {
        StringPool::lookup(self, id)
    }
}

} // verus!
