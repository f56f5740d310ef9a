//! The evaluation environment: a stack of local-binding frames, numbered
//! output and input byte streams standing for the injected I/O capability,
//! and the seed that the dealing primitives draw from.
use vstd::prelude::*;
use crate::val::{Val, ValV, Binding, BindV, view_bind_seq, lemma_view_bind_seq,
    view_binding, clone_bytes};

verus! {

/// Ghost mirror of [`Env`].
#[verifier::ext_equal]
pub struct EnvV {
    pub frames: Seq<Seq<BindV>>,
    pub outs: Seq<Seq<u8>>,
    pub ins: Seq<Seq<u8>>,
    pub seed: u64,
}

/// The evaluation environment.
pub struct Env {
    /// The scope stack, innermost frame last; never empty.
    pub frames: Vec<Vec<Binding>>,
    /// Numbered output sinks; a missing number means no such stream.
    pub outs: Vec<Vec<u8>>,
    /// Numbered input sources, consumed from the front.
    pub ins: Vec<Vec<u8>>,
    /// Seed for the dealing primitives; stepped after every draw.
    pub seed: u64,
}

/// The views of a stack of frames.
pub open spec fn view_frame_seq(s: Seq<Vec<Binding>>) -> Seq<Seq<BindV>>
    decreases s,
{
    if s.len() == 0 {
        Seq::empty()
    } else {
        view_frame_seq(s.subrange(0, s.len() - 1)).push(
            view_bind_seq(s[s.len() - 1]@),
        )
    }
}

/// The views of a sequence of byte buffers.
pub open spec fn view_bytes_seq(s: Seq<Vec<u8>>) -> Seq<Seq<u8>>
    decreases s,
{
    if s.len() == 0 {
        Seq::empty()
    } else {
        view_bytes_seq(s.subrange(0, s.len() - 1)).push(s[s.len() - 1]@)
    }
}

/// The view of a stack of frames is elementwise.
pub proof fn lemma_view_frame_seq(s: Seq<Vec<Binding>>)
    ensures
        view_frame_seq(s).len() == s.len(),
        forall|i: int|
            0 <= i < s.len() ==> #[trigger] view_frame_seq(s)[i]
                == view_bind_seq(s[i]@),
    decreases s.len(),
{
    if s.len() > 0 {
        lemma_view_frame_seq(s.subrange(0, s.len() - 1));
    }
}

/// The view of a sequence of byte buffers is elementwise.
pub proof fn lemma_view_bytes_seq(s: Seq<Vec<u8>>)
    ensures
        view_bytes_seq(s).len() == s.len(),
        forall|i: int|
            0 <= i < s.len() ==> #[trigger] view_bytes_seq(s)[i] == s[i]@,
    decreases s.len(),
{
    if s.len() > 0 {
        lemma_view_bytes_seq(s.subrange(0, s.len() - 1));
    }
}

impl View for Env {
    type V = EnvV;

    open spec fn view(&self) -> EnvV {
        EnvV {
            frames: view_frame_seq(self.frames@),
            outs: view_bytes_seq(self.outs@),
            ins: view_bytes_seq(self.ins@),
            seed: self.seed,
        }
    }
}

/// Look a name up in one frame, innermost binding first.
pub open spec fn frame_lookup(f: Seq<BindV>, name: Seq<u8>) -> Option<ValV>
    decreases f.len(),
{
    if f.len() == 0 {
        Option::None
    } else if f.last().name == name {
        Option::Some(f.last().val)
    } else {
        frame_lookup(f.drop_last(), name)
    }
}

/// Look a name up through the scope stack, innermost frame first.
pub open spec fn scopes_lookup(fs: Seq<Seq<BindV>>, name: Seq<u8>) -> Option<
    ValV,
>
    decreases fs.len(),
{
    if fs.len() == 0 {
        Option::None
    } else {
        match frame_lookup(fs.last(), name) {
            Option::Some(v) => Option::Some(v),
            Option::None => scopes_lookup(fs.drop_last(), name),
        }
    }
}

/// Rewrite the innermost binding of `name` in one frame, if there is one.
pub open spec fn frame_mutate(f: Seq<BindV>, name: Seq<u8>, v: ValV) -> Option<
    Seq<BindV>,
>
    decreases f.len(),
{
    if f.len() == 0 {
        Option::None
    } else if f.last().name == name {
        Option::Some(f.drop_last().push(BindV { name: name, val: v }))
    } else {
        match frame_mutate(f.drop_last(), name, v) {
            Option::Some(g) => Option::Some(g.push(f.last())),
            Option::None => Option::None,
        }
    }
}

/// Rewrite the innermost binding of `name` in the scope stack, if any.
pub open spec fn scopes_mutate(fs: Seq<Seq<BindV>>, name: Seq<u8>, v: ValV)
    -> Option<Seq<Seq<BindV>>>
    decreases fs.len(),
{
    if fs.len() == 0 {
        Option::None
    } else {
        match frame_mutate(fs.last(), name, v) {
            Option::Some(g) => Option::Some(fs.drop_last().push(g)),
            Option::None => match scopes_mutate(fs.drop_last(), name, v) {
                Option::Some(rest) => Option::Some(rest.push(fs.last())),
                Option::None => Option::None,
            },
        }
    }
}

/// A frame holds a name if and only if rewriting it succeeds.
pub proof fn lemma_frame_mutate_lookup(f: Seq<BindV>, name: Seq<u8>, v: ValV)
    ensures
        (frame_mutate(f, name, v) is Some) == (frame_lookup(f, name) is Some),
    decreases f.len(),
{
    if f.len() > 0 && f.last().name != name {
        lemma_frame_mutate_lookup(f.drop_last(), name, v);
    }
}

/// Compare two byte strings.
pub fn bytes_eq(a: &Vec<u8>, b: &Vec<u8>) -> (r: bool)
    ensures
        r == (a@ == b@),
{
    if a.len() != b.len() {
        return false;
    }
    let mut i: usize = 0;
    while i < a.len()
        invariant
            i <= a.len(),
            a@.len() == b@.len(),
            forall|j: int| 0 <= j < i ==> a@[j] == b@[j],
        decreases a.len() - i,
    {
        if a[i] != b[i] {
            return false;
        }
        i += 1;
    }
    proof {
        assert(a@ =~= b@);
    }
    true
}

/// Look a name up in one executable frame, innermost binding first.
fn frame_find(f: &Vec<Binding>, name: &Vec<u8>) -> (r: Option<Val>)
    ensures
        match r {
            Option::Some(v) => frame_lookup(view_bind_seq(f@), name@)
                == Option::Some(v@),
            Option::None => frame_lookup(view_bind_seq(f@), name@) is None,
        },
{
    proof {
        lemma_view_bind_seq(f@);
        assert(view_bind_seq(f@).subrange(0, view_bind_seq(f@).len() as int)
            =~= view_bind_seq(f@));
    }
    let mut j: usize = f.len();
    while j > 0
        invariant
            j <= f@.len(),
            view_bind_seq(f@).len() == f@.len(),
            forall|k: int|
                0 <= k < f@.len() ==> #[trigger] view_bind_seq(f@)[k]
                    == view_binding(f@[k]),
            frame_lookup(view_bind_seq(f@), name@) == frame_lookup(
                view_bind_seq(f@).subrange(0, j as int),
                name@,
            ),
        decreases j,
    {
        proof {
            let fv = view_bind_seq(f@);
            assert(fv.subrange(0, j as int).drop_last() =~= fv.subrange(
                0,
                j - 1,
            ));
            assert(fv.subrange(0, j as int).last() == fv[j - 1]);
        }
        if bytes_eq(&f[j - 1].name, name) {
            return Option::Some(f[j - 1].val.dup());
        }
        j -= 1;
    }
    proof {
        assert(view_bind_seq(f@).subrange(0, 0) =~= Seq::<BindV>::empty());
    }
    Option::None
}

impl Env {
    /// A well-formed environment always has at least one frame.
    pub open spec fn wf(self) -> bool {
        self.frames.len() >= 1
    }

    /// A fresh environment: one empty global frame, the given numbers of
    /// output and input streams, and a seed.
    pub fn new(n_outs: usize, seed: u64) -> (r: Env)
        ensures
            r.wf(),
            r@.frames =~= seq![Seq::<BindV>::empty()],
            r@.outs.len() == n_outs,
            forall|i: int| 0 <= i < n_outs ==> #[trigger] r@.outs[i]
                == Seq::<u8>::empty(),
            r@.ins =~= Seq::<Seq<u8>>::empty(),
            r@.seed == seed,
    {
        let mut frames: Vec<Vec<Binding>> = Vec::new();
        frames.push(Vec::new());
        let mut outs: Vec<Vec<u8>> = Vec::new();
        let mut i: usize = 0;
        while i < n_outs
            invariant
                i <= n_outs,
                outs@.len() == i,
                forall|j: int| 0 <= j < i ==> outs@[j]@ == Seq::<u8>::empty(),
            decreases n_outs - i,
        {
            outs.push(Vec::new());
            i += 1;
        }
        let r = Env { frames, outs, ins: Vec::new(), seed };
        proof {
            lemma_view_frame_seq(r.frames@);
            assert(r@.frames =~= seq![Seq::<BindV>::empty()]);
            lemma_view_bytes_seq(r.outs@);
            lemma_view_bytes_seq(r.ins@);
        }
        r
    }

    /// Look a variable up, innermost scope first.
    pub fn get_var(&self, name: &Vec<u8>) -> (r: Option<Val>)
        ensures
            match r {
                Option::Some(v) => scopes_lookup(self@.frames, name@)
                    == Option::Some(v@),
                Option::None => scopes_lookup(self@.frames, name@) is None,
            },
    {
        proof {
            lemma_view_frame_seq(self.frames@);
            assert(self@.frames.subrange(0, self@.frames.len() as int)
                =~= self@.frames);
        }
        let mut i: usize = self.frames.len();
        while i > 0
            invariant
                i <= self.frames@.len(),
                self@.frames.len() == self.frames@.len(),
                forall|k: int|
                    0 <= k < self.frames@.len() ==> #[trigger] self@.frames[k]
                        == view_bind_seq(self.frames@[k]@),
                scopes_lookup(self@.frames, name@) == scopes_lookup(
                    self@.frames.subrange(0, i as int),
                    name@,
                ),
            decreases i,
        {
            proof {
                let fs = self@.frames;
                assert(fs.subrange(0, i as int).drop_last() =~= fs.subrange(
                    0,
                    i - 1,
                ));
                assert(fs.subrange(0, i as int).last() == fs[i - 1]);
            }
            let found = frame_find(&self.frames[i - 1], name);
            if let Option::Some(v) = found {
                return Option::Some(v);
            }
            i -= 1;
        }
        proof {
            assert(self@.frames.subrange(0, 0) =~= Seq::<Seq<BindV>>::empty());
        }
        Option::None
    }

    /// Bind a name in the innermost frame, shadowing any earlier binding.
    pub fn set_local(&mut self, name: Vec<u8>, val: Val)
        requires
            old(self).wf(),
        ensures
            final(self).wf(),
            final(self)@.frames =~= old(self)@.frames.update(
                old(self)@.frames.len() - 1,
                old(self)@.frames.last().push(BindV { name: name@, val: val@ }),
            ),
            final(self)@.outs == old(self)@.outs,
            final(self)@.ins == old(self)@.ins,
            final(self)@.seed == old(self)@.seed,
    {
        proof {
            lemma_view_frame_seq(self.frames@);
        }
        let mut top = match self.frames.pop() {
            Option::Some(f) => f,
            Option::None => Vec::new(),
        };
        let ghost old_top = top@;
        top.push(Binding { name, val });
        proof {
            assert(view_bind_seq(top@) =~= view_bind_seq(old_top).push(
                view_binding(top@.last()),
            )) by {
                assert(top@.subrange(0, top@.len() - 1) =~= old_top);
            }
        }
        self.frames.push(top);
        proof {
            lemma_view_frame_seq(self.frames@);
            lemma_view_frame_seq(old(self).frames@);
            assert(self@.frames =~= old(self)@.frames.update(
                old(self)@.frames.len() - 1,
                old(self)@.frames.last().push(
                    BindV { name: name@, val: val@ },
                ),
            ));
        }
    }

    /// Push a frame on block entry.
    pub fn push_frame(&mut self, frame: Vec<Binding>)
        ensures
            final(self).wf(),
            final(self)@.frames =~= old(self)@.frames.push(view_bind_seq(frame@)),
            final(self)@.outs == old(self)@.outs,
            final(self)@.ins == old(self)@.ins,
            final(self)@.seed == old(self)@.seed,
    {
        self.frames.push(frame);
        proof {
            lemma_view_frame_seq(self.frames@);
            lemma_view_frame_seq(old(self).frames@);
            assert(self@.frames =~= old(self)@.frames.push(
                view_bind_seq(frame@),
            ));
        }
    }

    /// Pop a frame on block exit.
    pub fn pop_frame(&mut self)
        requires
            old(self)@.frames.len() >= 1,
        ensures
            final(self)@.frames =~= old(self)@.frames.drop_last(),
            final(self)@.outs == old(self)@.outs,
            final(self)@.ins == old(self)@.ins,
            final(self)@.seed == old(self)@.seed,
    {
        proof {
            lemma_view_frame_seq(self.frames@);
        }
        let _ = self.frames.pop();
        proof {
            lemma_view_frame_seq(self.frames@);
            lemma_view_frame_seq(old(self).frames@);
            assert(self@.frames =~= old(self)@.frames.drop_last());
        }
    }

    /// Mutate the innermost existing binding of a name; fail if none exists
    /// anywhere up the scope chain. On success the assigned value is
    /// returned.
    pub fn mutate_var(&mut self, name: &Vec<u8>, val: Val) -> (r: Option<Val>)
        ensures
            final(self)@.outs == old(self)@.outs,
            final(self)@.ins == old(self)@.ins,
            final(self)@.seed == old(self)@.seed,
            match r {
                Option::Some(v) => v@ == val@ && scopes_mutate(
                    old(self)@.frames,
                    name@,
                    val@,
                ) == Option::Some(final(self)@.frames),
                Option::None => scopes_mutate(old(self)@.frames, name@, val@)
                    is None && final(self)@.frames == old(self)@.frames,
            },
    {
        proof {
            lemma_view_frame_seq(self.frames@);
        }
        let ghost oldf = self@.frames;
        let mut i: usize = self.frames.len();
        while i > 0
            invariant
                i <= self.frames@.len(),
                oldf == old(self)@.frames,
                self@.frames == oldf,
                self@.outs == old(self)@.outs,
                self@.ins == old(self)@.ins,
                self@.seed == old(self)@.seed,
                self@.frames.len() == self.frames@.len(),
                forall|k: int|
                    0 <= k < self.frames@.len() ==> #[trigger] self@.frames[k]
                        == view_bind_seq(self.frames@[k]@),
                forall|m: int|
                    i <= m < oldf.len() ==> #[trigger] frame_lookup(
                        oldf[m],
                        name@,
                    ) is None,
            decreases i,
        {
            let frame_ref = &self.frames[i - 1];
            let found = frame_find(frame_ref, name);
            if found.is_some() {
                let new_frame = frame_rewrite(frame_ref, name, &val);
                self.frames.set(i - 1, new_frame);
                proof {
                    lemma_view_frame_seq(self.frames@);
                    lemma_scopes_mutate_at(oldf, name@, val@, i - 1);
                    match frame_mutate(oldf[i - 1], name@, val@) {
                        Option::Some(g) => {
                            assert(view_bind_seq(new_frame@) == g);
                            assert(self@.frames =~= oldf.update(i - 1, g));
                            assert(scopes_mutate(oldf, name@, val@)
                                == Option::Some(self@.frames));
                        },
                        Option::None => {
                            assert(false);
                        },
                    }
                }
                return Option::Some(val);
            }
            proof {
                lemma_frame_mutate_lookup(oldf[i - 1], name@, val@);
            }
            i -= 1;
        }
        proof {
            lemma_scopes_mutate_none(oldf, name@, val@);
        }
        Option::None
    }
}

/// If every frame from `p + 1` up finds nothing and frame `p` holds the
/// name, mutating the stack rewrites exactly frame `p`.
proof fn lemma_scopes_mutate_at(
    fs: Seq<Seq<BindV>>,
    name: Seq<u8>,
    v: ValV,
    p: int,
)
    requires
        0 <= p < fs.len(),
        frame_lookup(fs[p], name) is Some,
        forall|m: int| p < m < fs.len() ==> #[trigger] frame_lookup(
            fs[m],
            name,
        ) is None,
    ensures
        frame_mutate(fs[p], name, v) matches Option::Some(g)
            && scopes_mutate(fs, name, v) == Option::Some(fs.update(p, g)),
    decreases fs.len(),
{
    lemma_frame_mutate_lookup(fs[p], name, v);
    if p == fs.len() - 1 {
        let g = frame_mutate(fs.last(), name, v).unwrap();
        assert(scopes_mutate(fs, name, v) == Option::Some(
            fs.drop_last().push(g),
        ));
        assert(fs.drop_last().push(g) =~= fs.update(p, g));
    } else {
        lemma_frame_mutate_lookup(fs.last(), name, v);
        lemma_scopes_mutate_at(fs.drop_last(), name, v, p);
        let g = frame_mutate(fs[p], name, v).unwrap();
        assert(scopes_mutate(fs, name, v) == Option::Some(
            fs.drop_last().update(p, g).push(fs.last()),
        ));
        assert(fs.drop_last().update(p, g).push(fs.last()) =~= fs.update(
            p,
            g,
        ));
    }
}

/// If no frame finds the name, mutating the stack fails.
proof fn lemma_scopes_mutate_none(fs: Seq<Seq<BindV>>, name: Seq<u8>, v: ValV)
    requires
        forall|m: int| 0 <= m < fs.len() ==> #[trigger] frame_lookup(
            fs[m],
            name,
        ) is None,
    ensures
        scopes_mutate(fs, name, v) is None,
    decreases fs.len(),
{
    if fs.len() > 0 {
        lemma_frame_mutate_lookup(fs.last(), name, v);
        lemma_scopes_mutate_none(fs.drop_last(), name, v);
    }
}

/// Rebuild one frame with the innermost binding of `name` rewritten to
/// `val`; the caller has checked that the name is bound in it.
fn frame_rewrite(f: &Vec<Binding>, name: &Vec<u8>, val: &Val) -> (r: Vec<
    Binding,
>)
    requires
        frame_lookup(view_bind_seq(f@), name@) is Some,
    ensures
        frame_mutate(view_bind_seq(f@), name@, val@) == Option::Some(
            view_bind_seq(r@),
        ),
{
    proof {
        lemma_view_bind_seq(f@);
    }
    let mut j: usize = f.len();
    while j > 0
        invariant
            j <= f@.len(),
            view_bind_seq(f@).len() == f@.len(),
            forall|k: int|
                0 <= k < f@.len() ==> #[trigger] view_bind_seq(f@)[k]
                    == view_binding(f@[k]),
            frame_lookup(view_bind_seq(f@), name@) is Some,
            forall|m: int|
                j <= m < f@.len() ==> #[trigger] view_bind_seq(f@)[m].name
                    != name@,
        decreases j,
    {
        if bytes_eq(&f[j - 1].name, name) {
            // Rebuild: everything below j-1, the rewritten binding, then
            // everything above.
            let mut out: Vec<Binding> = Vec::new();
            let mut k: usize = 0;
            while k < j - 1
                invariant
                    1 <= j <= f@.len(),
                    k <= j - 1,
                    out@.len() == k,
                    forall|m: int|
                        0 <= m < k ==> #[trigger] view_binding(out@[m])
                            == view_binding(f@[m]),
                decreases j - 1 - k,
            {
                out.push(f[k].dup_binding());
                k += 1;
            }
            out.push(Binding { name: clone_bytes(name), val: val.dup() });
            let mut k2: usize = j;
            while k2 < f.len()
                invariant
                    1 <= j <= k2 <= f@.len(),
                    out@.len() == k2,
                    forall|m: int|
                        0 <= m < j - 1 ==> #[trigger] view_binding(out@[m])
                            == view_binding(f@[m]),
                    view_binding(out@[j - 1]) == (BindV {
                        name: name@,
                        val: val@,
                    }),
                    forall|m: int|
                        j <= m < k2 ==> #[trigger] view_binding(out@[m])
                            == view_binding(f@[m]),
                decreases f@.len() - k2,
            {
                out.push(f[k2].dup_binding());
                k2 += 1;
            }
            proof {
                lemma_view_bind_seq(out@);
                let fv = view_bind_seq(f@);
                lemma_frame_mutate_split(fv, name@, val@, j - 1);
                assert(view_bind_seq(out@) =~= fv.update(
                    j - 1,
                    BindV { name: name@, val: val@ },
                ));
            }
            return out;
        }
        j -= 1;
    }
    proof {
        assert(view_bind_seq(f@).subrange(0, 0) =~= Seq::<BindV>::empty());
        lemma_frame_lookup_none(view_bind_seq(f@), name@);
    }
    // Unreachable: the requires guarantees the name is bound.
    Vec::new()
}

/// If no position matches the name, the frame lookup fails.
proof fn lemma_frame_lookup_none(f: Seq<BindV>, name: Seq<u8>)
    requires
        forall|m: int| 0 <= m < f.len() ==> #[trigger] f[m].name != name,
    ensures
        frame_lookup(f, name) is None,
    decreases f.len(),
{
    if f.len() > 0 {
        lemma_frame_lookup_none(f.drop_last(), name);
    }
}

/// If position `p` holds the innermost binding of `name` (nothing above it
/// matches), rewriting replaces exactly that position.
proof fn lemma_frame_mutate_split(f: Seq<BindV>, name: Seq<u8>, v: ValV, p: int)
    requires
        0 <= p < f.len(),
        f[p].name == name,
        forall|m: int| p < m < f.len() ==> #[trigger] f[m].name != name,
    ensures
        frame_mutate(f, name, v) matches Option::Some(g) && g =~= f.update(
            p,
            BindV { name: name, val: v },
        ),
    decreases f.len(),
{
    if p == f.len() - 1 {
        assert(frame_mutate(f, name, v) == Option::Some(
            f.drop_last().push(BindV { name: name, val: v }),
        ));
        assert(f.drop_last().push(BindV { name: name, val: v }) =~= f.update(
            p,
            BindV { name: name, val: v },
        ));
    } else {
        lemma_frame_mutate_split(f.drop_last(), name, v, p);
        let g0 = frame_mutate(f.drop_last(), name, v).unwrap();
        assert(frame_mutate(f, name, v) == Option::Some(g0.push(f.last())));
        assert(g0.push(f.last()) =~= f.update(
            p,
            BindV { name: name, val: v },
        ));
    }
}

impl Binding {
    /// Copy a binding.
    pub fn dup_binding(&self) -> (r: Binding)
        ensures
            view_binding(r) == view_binding(*self),
    {
        Binding { name: clone_bytes(&self.name), val: self.val.dup() }
    }
}

} // verus!

verus! {

/// Rewriting a binding keeps the number of frames.
pub proof fn lemma_scopes_mutate_len(
    fs: Seq<Seq<BindV>>,
    name: Seq<u8>,
    v: ValV,
)
    ensures
        scopes_mutate(fs, name, v) matches Option::Some(g) ==> g.len()
            == fs.len(),
    decreases fs.len(),
{
    if fs.len() > 0 {
        lemma_scopes_mutate_len(fs.drop_last(), name, v);
    }
}

} // verus!

verus! {

/// Flattening after a push appends the pushed frame.
pub proof fn lemma_flatten_push(s: Seq<Seq<BindV>>, x: Seq<BindV>)
    ensures
        s.push(x).flatten() == s.flatten() + x,
{
    Seq::lemma_flatten_push(s, x);
}

} // verus!
