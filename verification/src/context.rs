//! The context: allocation arena, dialect registry and string cache.

use vstd::prelude::*;

verus! {

/// The root arena and registry.
///
/// Every other IR object is created against a context: the context
/// hands out the identities of operations and blocks, counts the
/// operation nodes that are currently allocated, knows which dialects
/// are loaded, and owns the string-interning cache.
pub struct Context {
    /// The number of operation nodes currently allocated and not yet
    /// released.
    pub allocated_operations: u64,
    /// The next fresh identity for an operation or block.
    pub next_id: u64,
    /// The namespaces of the loaded dialects.
    pub dialects: Vec<String>,
    /// Whether operations of unregistered dialects may be built.
    pub allow_unregistered: bool,
    /// The string-interning cache: no two entries hold the same text.
    pub strings: Vec<String>,
}

/// The context's internal invariant: the interning cache holds no
/// duplicates, and no more operations are allocated than identities
/// were handed out.
pub open spec fn context_wf(ctx: Context) -> bool {
    &&& forall|i: int, j: int|
        0 <= i < j < ctx.strings@.len() ==> ctx.strings@[i]@ != ctx.strings@[j]@
    &&& ctx.allocated_operations <= ctx.next_id
}

/// Whether a dialect with the given namespace is loaded.
pub open spec fn dialect_loaded(ctx: Context, namespace: Seq<char>) -> bool {
    exists|i: int| 0 <= i < ctx.dialects@.len() && ctx.dialects@[i]@ == namespace
}

/// The namespace prefix of an operation name: the characters before
/// the first `.`, or nothing when the name contains no `.`.
pub open spec fn name_namespace(name: Seq<char>) -> Option<Seq<char>>
    decreases name.len(),
{
    if name.len() == 0 {
        None
    } else if name[0] == '.' {
        Some(Seq::empty())
    } else {
        match name_namespace(name.drop_first()) {
            Some(rest) => Some(seq![name[0]] + rest),
            None => None,
        }
    }
}

/// Whether an operation with this name may be materialized in this
/// context: its dialect is loaded, or unregistered dialects are
/// allowed.
pub open spec fn name_buildable(ctx: Context, name: Seq<char>) -> bool {
    ||| ctx.allow_unregistered
    ||| match name_namespace(name) {
        Some(ns) => dialect_loaded(ctx, ns),
        None => false,
    }
}

/// Whether the context can still hand out `n` fresh identities.
pub open spec fn can_allocate(ctx: Context, n: nat) -> bool {
    ctx.next_id + n <= u64::MAX
}

impl Context {
    /// Creates a context with nothing loaded and nothing allocated.
    pub fn new() -> (r: Context)
        ensures
            context_wf(r),
            r.allocated_operations == 0,
            r.next_id == 0,
            r.dialects@.len() == 0,
            !r.allow_unregistered,
            r.strings@.len() == 0,
    {
        Context {
            allocated_operations: 0,
            next_id: 0,
            dialects: Vec::new(),
            allow_unregistered: false,
            strings: Vec::new(),
        }
    }

    /// Loads a dialect by namespace, so operations of that dialect can
    /// be built.
    pub fn load_dialect(&mut self, namespace: &str)
        requires
            context_wf(*old(self)),
        ensures
            context_wf(*final(self)),
            dialect_loaded(*final(self), namespace@),
            final(self).dialects@.len() == old(self).dialects@.len() + 1,
            forall|ns: Seq<char>|
                dialect_loaded(*old(self), ns) ==> dialect_loaded(*final(self), ns),
            final(self).allocated_operations == old(self).allocated_operations,
            final(self).next_id == old(self).next_id,
            final(self).allow_unregistered == old(self).allow_unregistered,
            final(self).strings == old(self).strings,
    {
        let ghost before = self.dialects@;
        self.dialects.push(namespace.to_owned());
        assert(self.dialects@.len() == before.len() + 1);
        assert(self.dialects@[before.len() as int]@ == namespace@);
        assert forall|ns: Seq<char>| dialect_loaded(*old(self), ns)
            implies dialect_loaded(*self, ns) by {
            let i = choose|i: int| 0 <= i < before.len() && before[i]@ == ns;
            assert(self.dialects@[i]@ == ns);
        }
    }

    /// Allows or forbids building operations of unregistered dialects.
    pub fn set_allow_unregistered_dialects(&mut self, allowed: bool)
        requires
            context_wf(*old(self)),
        ensures
            context_wf(*final(self)),
            *final(self) == (Context { allow_unregistered: allowed, ..*old(self) }),
    {
        self.allow_unregistered = allowed;
    }

    /// Whether an operation with the given name may be built.
    pub fn allows_name(&self, name: &str) -> (r: bool)
        ensures
            r == name_buildable(*self, name@),
    {
        if self.allow_unregistered {
            return true;
        }
        match find_namespace(name) {
            Some(end) => {
                let ns = name.substring_char(0, end);
                self.has_dialect(ns)
            },
            None => {
                assert(name_namespace(name@) is None);
                false
            },
        }
    }

    /// Whether a dialect with this namespace is loaded.
    fn has_dialect(&self, namespace: &str) -> (r: bool)
        ensures
            r == dialect_loaded(*self, namespace@),
    {
        let mut i: usize = 0;
        while i < self.dialects.len()
            invariant
                i <= self.dialects@.len(),
                forall|j: int| 0 <= j < i ==> self.dialects@[j]@ != namespace@,
            decreases self.dialects@.len() - i,
        {
            if crate::text::str_eq(self.dialects[i].as_str(), namespace) {
                assert(self.dialects@[i as int]@ == namespace@);
                return true;
            }
            i = i + 1;
        }
        false
    }

    /// Interns a string, returning its index in the cache; the same
    /// text always yields the same index.
    pub fn intern(&mut self, text: &str) -> (r: usize)
        requires
            context_wf(*old(self)),
        ensures
            context_wf(*final(self)),
            r < final(self).strings@.len(),
            final(self).strings@[r as int]@ == text@,
            // the cache only grows, and only by this text
            old(self).strings@.len() <= final(self).strings@.len()
                <= old(self).strings@.len() + 1,
            forall|i: int| 0 <= i < old(self).strings@.len()
                ==> final(self).strings@[i] == old(self).strings@[i],
            final(self).allocated_operations == old(self).allocated_operations,
            final(self).next_id == old(self).next_id,
            final(self).dialects == old(self).dialects,
            final(self).allow_unregistered == old(self).allow_unregistered,
    {
        let mut i: usize = 0;
        while i < self.strings.len()
            invariant
                *self == *old(self),
                context_wf(*self),
                i <= self.strings@.len(),
                forall|j: int| 0 <= j < i ==> self.strings@[j]@ != text@,
            decreases self.strings@.len() - i,
        {
            if crate::text::str_eq(self.strings[i].as_str(), text) {
                assert(self.strings@[i as int]@ == text@);
                return i;
            }
            i = i + 1;
        }
        let r = self.strings.len();
        self.strings.push(text.to_owned());
        assert(forall|j: int| 0 <= j < r ==> self.strings@[j]@ != text@);
        r
    }

    /// The text interned at an index of the cache.
    pub fn interned(&self, index: usize) -> (r: &String)
        requires
            index < self.strings@.len(),
        ensures
            r == self.strings@[index as int],
    {
        &self.strings[index]
    }
}

/// Two interned indices are equal exactly when their texts are equal.
pub proof fn lemma_intern_identity(ctx: Context, i: int, j: int)
    requires
        context_wf(ctx),
        0 <= i < ctx.strings@.len(),
        0 <= j < ctx.strings@.len(),
    ensures
        (i == j) <==> (ctx.strings@[i]@ == ctx.strings@[j]@),
{
    if i != j {
        if i < j {
            assert(ctx.strings@[i]@ != ctx.strings@[j]@);
        } else {
            assert(ctx.strings@[j]@ != ctx.strings@[i]@);
        }
    }
}

/// Finds the position of the first `.` in a name, the end of its
/// namespace prefix.
fn find_namespace(name: &str) -> (r: Option<usize>)
    ensures
        match r {
            Some(end) => {
                &&& end <= name@.len()
                &&& name_namespace(name@) == Some(name@.subrange(0, end as int))
            },
            None => name_namespace(name@) is None,
        },
{
    let n = name.unicode_len();
    let mut i: usize = 0;
    while i < n
        invariant
            n == name@.len(),
            i <= n,
            forall|j: int| 0 <= j < i ==> name@[j] != '.',
        decreases n - i,
    {
        if name.get_char(i) == '.' {
            proof {
                lemma_namespace_prefix(name@, i as int);
            }
            return Some(i);
        }
        i = i + 1;
    }
    proof {
        lemma_namespace_none(name@);
    }
    None
}

/// When the first `.` of a name stands at `k`, the namespace is the
/// prefix before `k`.
proof fn lemma_namespace_prefix(name: Seq<char>, k: int)
    requires
        0 <= k < name.len(),
        name[k] == '.',
        forall|j: int| 0 <= j < k ==> name[j] != '.',
    ensures
        name_namespace(name) == Some(name.subrange(0, k)),
    decreases name.len(),
{
    if k == 0 {
        assert(name.subrange(0, 0) =~= Seq::empty());
    } else {
        lemma_namespace_prefix(name.drop_first(), k - 1);
        assert(name.drop_first().subrange(0, k - 1) =~= name.subrange(1, k));
        assert(seq![name[0]] + name.subrange(1, k) =~= name.subrange(0, k));
    }
}

/// A name without `.` has no namespace.
proof fn lemma_namespace_none(name: Seq<char>)
    requires
        forall|j: int| 0 <= j < name.len() ==> name[j] != '.',
    ensures
        name_namespace(name) is None,
    decreases name.len(),
{
    if name.len() > 0 {
        lemma_namespace_none(name.drop_first());
    }
}

} // verus!
