use vstd::prelude::*;

verus! {

/// What a source declaration says: the index it stands for, and the name of
/// the source it defers to.
pub struct SourceView {
    pub registry: Option<Seq<char>>,
    pub replace_with: Option<Seq<char>>,
}

/// A named source declaration.
pub type Decl = (Seq<char>, SourceView);

pub open spec fn opt_view(o: Option<String>) -> Option<Seq<char>> {
    match o {
        Some(s) => Some(s@),
        None => None,
    }
}

/// One declaration of a named source: an origin (`registry` set) or a
/// redirect (`replace_with` set). Where both are set the redirect is followed.
#[derive(Debug)]
pub struct SourceEntry {
    pub registry: Option<String>,
    pub replace_with: Option<String>,
}

impl View for SourceEntry {
    type V = SourceView;

    open spec fn view(&self) -> SourceView {
        SourceView { registry: opt_view(self.registry), replace_with: opt_view(self.replace_with) }
    }
}

/// A copy of an optional string.
pub fn clone_opt(o: &Option<String>) -> (r: Option<String>)
    ensures
        opt_view(r) == opt_view(*o),
{
    match o {
        Some(s) => Some(s.clone()),
        None => None,
    }
}

impl SourceEntry {
    /// A copy of this declaration.
    pub fn duplicate(&self) -> (r: SourceEntry)
        ensures
            r@ == self@,
    {
        SourceEntry { registry: clone_opt(&self.registry), replace_with: clone_opt(&self.replace_with) }
    }
}

pub open spec fn decl_view(d: (String, SourceEntry)) -> Decl {
    (d.0@, d.1@)
}

pub open spec fn index_view(r: (String, Option<String>)) -> (Seq<char>, Option<Seq<char>>) {
    (r.0@, opt_view(r.1))
}

/// The declarations of one configuration file.
pub struct ConfigView {
    pub source: Seq<Decl>,
    pub registries: Seq<(Seq<char>, Option<Seq<char>>)>,
}

/// The declarations that one configuration file makes: its `source` section
/// (name, `registry`, `replace-with`) and its `registries` section (name,
/// `index`).
#[derive(Debug)]
pub struct ConfigFile {
    pub source: Vec<(String, SourceEntry)>,
    pub registries: Vec<(String, Option<String>)>,
}

impl View for ConfigFile {
    type V = ConfigView;

    open spec fn view(&self) -> ConfigView {
        ConfigView {
            source: self.source@.map_values(|d: (String, SourceEntry)| decl_view(d)),
            registries: self.registries@.map_values(|r: (String, Option<String>)| index_view(r)),
        }
    }
}

/// A `registries` entry read as a source declaration: an origin at its index.
pub open spec fn registry_decl(r: (Seq<char>, Option<Seq<char>>)) -> Decl {
    (r.0, SourceView { registry: r.1, replace_with: None })
}

/// The declarations of one file in the order they are merged: the `source`
/// section before the `registries` section.
pub open spec fn file_decls(c: ConfigView) -> Seq<Decl> {
    c.source + c.registries.map_values(|r: (Seq<char>, Option<Seq<char>>)| registry_decl(r))
}

/// All declarations of a list of files, nearest file first. A file that could
/// not be read as configuration (`None`) declares nothing.
pub open spec fn declarations(cs: Seq<Option<ConfigView>>) -> Seq<Decl>
    decreases cs.len(),
{
    if cs.len() == 0 {
        seq![]
    } else {
        declarations(cs.drop_last()) + match cs.last() {
            Some(c) => file_decls(c),
            None => seq![],
        }
    }
}

/// The index of the first declaration of `k` in `t`, or -1.
pub open spec fn position(t: Seq<Decl>, k: Seq<char>) -> int
    decreases t.len(),
{
    if t.len() == 0 {
        -1
    } else {
        let p = position(t.drop_last(), k);
        if p >= 0 {
            p
        } else if t.last().0 == k {
            t.len() - 1
        } else {
            -1
        }
    }
}

/// The first declaration of `k` in `t`.
pub open spec fn lookup(t: Seq<Decl>, k: Seq<char>) -> Option<SourceView> {
    let p = position(t, k);
    if p >= 0 {
        Some(t[p].1)
    } else {
        None
    }
}

/// `t` with `d` added, unless `t` already declares its name.
pub open spec fn insert_absent(t: Seq<Decl>, d: Decl) -> Seq<Decl> {
    if position(t, d.0) >= 0 {
        t
    } else {
        t.push(d)
    }
}

/// `t` with the declarations `ds` merged in order, first writer winning.
pub open spec fn absorb(t: Seq<Decl>, ds: Seq<Decl>) -> Seq<Decl>
    decreases ds.len(),
{
    if ds.len() == 0 {
        t
    } else {
        insert_absent(absorb(t, ds.drop_last()), ds.last())
    }
}

/// The table that a list of files gives, nearest file first.
pub open spec fn merged_table(cs: Seq<Option<ConfigView>>) -> Seq<Decl> {
    absorb(seq![], declarations(cs))
}

pub proof fn lemma_position_bounds(t: Seq<Decl>, k: Seq<char>)
    ensures
        -1 <= position(t, k) < t.len(),
        position(t, k) >= 0 ==> t[position(t, k)].0 == k,
    decreases t.len(),
{
    if t.len() > 0 {
        lemma_position_bounds(t.drop_last(), k);
    }
}

/// No two entries of `t` declare the same name.
pub open spec fn names_unique(t: Seq<Decl>) -> bool {
    forall|i: int, j: int| 0 <= i < j < t.len() ==> t[i].0 != t[j].0
}

pub proof fn lemma_position_absent(t: Seq<Decl>, k: Seq<char>)
    ensures
        position(t, k) < 0 <==> forall|i: int| 0 <= i < t.len() ==> t[i].0 != k,
    decreases t.len(),
{
    lemma_position_bounds(t, k);
    if t.len() > 0 {
        lemma_position_absent(t.drop_last(), k);
        assert forall|i: int| 0 <= i < t.len() - 1 implies t[i] == t.drop_last()[i] by {}
    }
}

pub proof fn lemma_position_push(t: Seq<Decl>, d: Decl, k: Seq<char>)
    ensures
        position(t.push(d), k) == if position(t, k) >= 0 {
            position(t, k)
        } else if d.0 == k {
            t.len() as int
        } else {
            -1
        },
{
    assert(t.push(d).drop_last() =~= t);
}

pub proof fn lemma_absorb_append(t: Seq<Decl>, a: Seq<Decl>, b: Seq<Decl>)
    ensures
        absorb(t, a + b) == absorb(absorb(t, a), b),
    decreases b.len(),
{
    if b.len() == 0 {
        assert(a + b =~= a);
    } else {
        assert((a + b).drop_last() =~= a + b.drop_last());
        lemma_absorb_append(t, a, b.drop_last());
    }
}

/// Merging first-writer-wins answers every lookup as the first of all the
/// declarations, in order, would.
pub proof fn lemma_lookup_absorb(t: Seq<Decl>, ds: Seq<Decl>, k: Seq<char>)
    ensures
        lookup(absorb(t, ds), k) == lookup(t + ds, k),
    decreases ds.len(),
{
    if ds.len() == 0 {
        assert(t + ds =~= t);
    } else {
        let a = absorb(t, ds.drop_last());
        let x = ds.last();
        lemma_lookup_absorb(t, ds.drop_last(), k);
        assert((t + ds).drop_last() =~= t + ds.drop_last());
        assert((t + ds) =~= (t + ds.drop_last()).push(x));
        lemma_position_push(t + ds.drop_last(), x, k);
        lemma_position_bounds(t + ds.drop_last(), k);
        if position(a, x.0) < 0 {
            lemma_position_push(a, x, k);
            lemma_position_bounds(a, k);
        } else if x.0 == k {
            lemma_position_bounds(a, k);
        }
    }
}

pub proof fn lemma_position_append(a: Seq<Decl>, b: Seq<Decl>, k: Seq<char>)
    ensures
        position(a + b, k) == if position(a, k) >= 0 {
            position(a, k)
        } else if position(b, k) >= 0 {
            a.len() + position(b, k)
        } else {
            -1
        },
    decreases b.len(),
{
    if b.len() == 0 {
        assert(a + b =~= a);
    } else {
        lemma_position_append(a, b.drop_last(), k);
        assert(a + b =~= (a + b.drop_last()).push(b.last()));
        assert(b =~= b.drop_last().push(b.last()));
        lemma_position_push(a + b.drop_last(), b.last(), k);
        lemma_position_push(b.drop_last(), b.last(), k);
    }
}

/// Removing an entry of another name leaves the lookup of `k` as it was.
pub proof fn lemma_lookup_remove(t: Seq<Decl>, p: int, k: Seq<char>)
    requires
        0 <= p < t.len(),
        t[p].0 != k,
    ensures
        lookup(t.remove(p), k) == lookup(t, k),
        position(t.remove(p), k) == if position(t, k) < 0 {
            -1
        } else if position(t, k) < p {
            position(t, k)
        } else {
            position(t, k) - 1
        },
    decreases t.len(),
{
    lemma_position_bounds(t, k);
    if p == t.len() - 1 {
        assert(t.remove(p) =~= t.drop_last());
    } else {
        lemma_lookup_remove(t.drop_last(), p, k);
        lemma_position_bounds(t.drop_last(), k);
        assert(t.remove(p).drop_last() =~= t.drop_last().remove(p));
    }
}

pub proof fn lemma_declarations_append(x: Seq<Option<ConfigView>>, y: Seq<Option<ConfigView>>)
    ensures
        declarations(x + y) == declarations(x) + declarations(y),
    decreases y.len(),
{
    if y.len() == 0 {
        assert(x + y =~= x);
        assert(declarations(x) + declarations(y) =~= declarations(x));
    } else {
        lemma_declarations_append(x, y.drop_last());
        assert((x + y).drop_last() =~= x + y.drop_last());
        let tail = match y.last() {
            Some(c) => file_decls(c),
            None => seq![],
        };
        assert(declarations(x) + declarations(y.drop_last()) + tail =~= declarations(x)
            + (declarations(y.drop_last()) + tail));
    }
}

/// Within a file, a name that its `source` section declares resolves to that
/// declaration, whatever its `registries` section and the further files say
/// of it, unless a nearer file declares it.
pub proof fn lemma_source_section_wins(cs: Seq<Option<ConfigView>>, i: int, k: Seq<char>)
    requires
        0 <= i < cs.len(),
        cs[i] is Some,
        lookup(merged_table(cs.take(i)), k) is None,
        lookup(cs[i]->Some_0.source, k) is Some,
    ensures
        lookup(merged_table(cs), k) == lookup(cs[i]->Some_0.source, k),
{
    let c = cs[i]->Some_0;
    let e = Seq::<Decl>::empty();
    let one = seq![cs[i]];
    assert(one.drop_last() =~= Seq::<Option<ConfigView>>::empty());
    assert(declarations(one.drop_last()) == e);
    assert(declarations(one) == declarations(one.drop_last()) + file_decls(c));
    assert(declarations(one) =~= file_decls(c));
    assert(cs =~= cs.take(i) + one + cs.skip(i + 1));
    lemma_declarations_append(cs.take(i), one);
    lemma_declarations_append(cs.take(i) + one, cs.skip(i + 1));
    let d0 = declarations(cs.take(i));
    let d2 = declarations(cs.skip(i + 1));
    lemma_lookup_absorb(e, d0, k);
    assert(e + d0 =~= d0);
    lemma_lookup_absorb(e, declarations(cs), k);
    assert(e + declarations(cs) =~= declarations(cs));
    let regs = c.registries.map_values(|r: (Seq<char>, Option<Seq<char>>)| registry_decl(r));
    lemma_position_bounds(c.source, k);
    lemma_position_append(c.source, regs, k);
    lemma_position_append(d0, file_decls(c), k);
    lemma_position_append(d0 + file_decls(c), d2, k);
    lemma_position_bounds(d0 + file_decls(c), k);
    assert((d0 + file_decls(c))[d0.len() + position(c.source, k)] == c.source[position(c.source, k)]);
}

/// A name that the nearer files declare keeps their declaration, whatever
/// the further files declare.
pub proof fn lemma_nearer_file_wins(
    near: Seq<Option<ConfigView>>,
    far: Seq<Option<ConfigView>>,
    k: Seq<char>,
)
    requires
        lookup(merged_table(near), k) is Some,
    ensures
        lookup(merged_table(near + far), k) == lookup(merged_table(near), k),
{
    let e = Seq::<Decl>::empty();
    lemma_declarations_append(near, far);
    lemma_lookup_absorb(e, declarations(near), k);
    lemma_lookup_absorb(e, declarations(near + far), k);
    assert(e + declarations(near) =~= declarations(near));
    assert(e + declarations(near + far) =~= declarations(near) + declarations(far));
    lemma_position_append(declarations(near), declarations(far), k);
    lemma_position_bounds(declarations(near), k);
}

/// The merged table of the configuration files: each name bound to its
/// first declaration.
pub struct SourceTable {
    pub entries: Vec<(String, SourceEntry)>,
}

impl View for SourceTable {
    type V = Seq<Decl>;

    open spec fn view(&self) -> Seq<Decl> {
        self.entries@.map_values(|d: (String, SourceEntry)| decl_view(d))
    }
}

impl SourceTable {
    /// Each name is declared at most once.
    pub open spec fn wf(&self) -> bool {
        names_unique(self@)
    }

    /// An empty table.
    pub fn new() -> (r: SourceTable)
        ensures
            r@ == Seq::<Decl>::empty(),
            r.wf(),
    {
        let r = SourceTable { entries: Vec::new() };
        assert(r@ =~= Seq::<Decl>::empty());
        r
    }

    /// The index of the first declaration of `name`.
    pub fn find(&self, name: &String) -> (r: Option<usize>)
        ensures
            r is Some <==> position(self@, name@) >= 0,
            r matches Some(i) ==> i == position(self@, name@),
    {
        let mut found: Option<usize> = None;
        let mut j: usize = 0;
        while j < self.entries.len()
            invariant
                j <= self.entries@.len(),
                found is Some <==> position(self@.take(j as int), name@) >= 0,
                found matches Some(i) ==> i == position(self@.take(j as int), name@),
            decreases self.entries@.len() - j,
        {
            proof {
                assert(self@.take(j + 1) =~= self@.take(j as int).push(self@[j as int]));
                lemma_position_push(self@.take(j as int), self@[j as int], name@);
            }
            if found.is_none() && self.entries[j].0 == *name {
                found = Some(j);
            }
            j = j + 1;
        }
        assert(self@.take(j as int) =~= self@);
        found
    }

    /// Adds `entry` under `name` unless the table already declares `name`.
    pub fn insert_if_absent(&mut self, name: String, entry: SourceEntry)
        requires
            old(self).wf(),
        ensures
            final(self)@ == insert_absent(old(self)@, (name@, entry@)),
            final(self).wf(),
    {
        match self.find(&name) {
            Some(_) => {},
            None => {
                proof {
                    lemma_position_absent(old(self)@, name@);
                }
                self.entries.push((name, entry));
                assert(self@ =~= old(self)@.push((name@, entry@)));
            },
        }
    }

    /// Removes the entry at `i` and returns it.
    pub fn take_entry(&mut self, i: usize) -> (r: SourceEntry)
        requires
            i < old(self)@.len(),
        ensures
            r@ == old(self)@[i as int].1,
            final(self)@ == old(self)@.remove(i as int),
            old(self).wf() ==> final(self).wf(),
    {
        let (_, e) = self.entries.remove(i);
        assert(self@ =~= old(self)@.remove(i as int));
        e
    }

    /// Merges the declarations of one file, first writer winning.
    pub fn merge_file(&mut self, c: &ConfigFile)
        requires
            old(self).wf(),
        ensures
            final(self)@ == absorb(old(self)@, file_decls(c@)),
            final(self).wf(),
    {
        let ghost t0 = self@;
        let ghost fd = file_decls(c@);
        let ns = c.source.len();
        let mut j: usize = 0;
        while j < ns
            invariant
                ns == c.source@.len(),
                j <= ns,
                fd == file_decls(c@),
                self@ == absorb(t0, fd.take(j as int)),
                self.wf(),
            decreases ns - j,
        {
            assert(fd.take(j + 1).drop_last() =~= fd.take(j as int));
            let e = &c.source[j];
            self.insert_if_absent(e.0.clone(), e.1.duplicate());
            j = j + 1;
        }
        let nr = c.registries.len();
        let mut j: usize = 0;
        while j < nr
            invariant
                ns == c.source@.len(),
                nr == c.registries@.len(),
                j <= nr,
                fd == file_decls(c@),
                self@ == absorb(t0, fd.take(ns + j)),
                self.wf(),
            decreases nr - j,
        {
            assert(fd.take(ns + j + 1).drop_last() =~= fd.take(ns + j));
            let r = &c.registries[j];
            self.insert_if_absent(
                r.0.clone(),
                SourceEntry { registry: clone_opt(&r.1), replace_with: None },
            );
            j = j + 1;
        }
        assert(fd.take(ns + nr) =~= fd);
    }
}

} // verus!
