use crate::cache_key::{cache_path_of, registry_path_from_url};
use crate::config::{
    declarations, file_decls, lemma_absorb_append, lemma_lookup_remove, lemma_position_bounds,
    lemma_nearer_file_wins, lookup, merged_table, position, ConfigFile, ConfigView, Decl, SourceEntry, SourceTable, SourceView,
};
use crate::registry_url::{parsed_url, url_parses, RegistryUrl, UrlView};
use vstd::prelude::*;

verus! {

/// The index URL of the default registry.
pub open spec fn crates_io_index() -> Seq<char> {
    "https://github.com/rust-lang/crates.io-index"@
}

/// The reserved name of the default registry.
pub open spec fn crates_io_registry() -> Seq<char> {
    "crates-io"@
}

/// Why a registry could not be located.
pub enum ErrorView {
    HomeDirUnavailable,
    InvalidConfig,
    RegistryNotFound(Seq<char>),
    SourceNotFound(Seq<char>),
}

/// Why a registry could not be located.
#[derive(Debug)]
pub enum Error {
    /// The tool's home directory could not be determined.
    HomeDirUnavailable,
    /// A configuration file is malformed, or the resolved source has no
    /// usable index URL.
    InvalidConfig,
    /// No declaration names the requested registry.
    RegistryNotFound(String),
    /// A `replace-with` names a source that nothing declares.
    SourceNotFound(String),
}

impl View for Error {
    type V = ErrorView;

    open spec fn view(&self) -> ErrorView {
        match self {
            Error::HomeDirUnavailable => ErrorView::HomeDirUnavailable,
            Error::InvalidConfig => ErrorView::InvalidConfig,
            Error::RegistryNotFound(n) => ErrorView::RegistryNotFound(n@),
            Error::SourceNotFound(n) => ErrorView::SourceNotFound(n@),
        }
    }
}

pub open spec fn name_view(name: Option<&str>) -> Option<Seq<char>> {
    match name {
        Some(s) => Some(s@),
        None => None,
    }
}

pub open spec fn configs_view(cs: Seq<Option<ConfigFile>>) -> Seq<Option<ConfigView>> {
    cs.map_values(
        |o: Option<ConfigFile>|
            match o {
                Some(c) => Some(c@),
                None => None,
            },
    )
}

/// Whether the request is for the default registry: no name, or the default
/// index URL itself.
pub open spec fn is_default_request(name: Option<Seq<char>>) -> bool {
    name is None || name == Some(crates_io_index())
}

/// The name under which the requested registry is looked up.
pub open spec fn origin_name(name: Option<Seq<char>>) -> Seq<char> {
    if is_default_request(name) {
        crates_io_registry()
    } else {
        name->Some_0
    }
}

/// The built-in declaration of the default registry.
pub open spec fn default_source() -> SourceView {
    SourceView { registry: Some(crates_io_index()), replace_with: None }
}

/// Follows `cur`'s redirects through `t`, each step consuming the declaration
/// it reaches: the index of the entry where the chain ends. A cycle reaches a
/// consumed name and ends in `SourceNotFound`.
pub open spec fn follow(t: Seq<Decl>, cur: SourceView) -> Result<Option<Seq<char>>, ErrorView>
    decreases t.len(),
    via follow_decreases
{
    match cur.replace_with {
        None => Ok(cur.registry),
        Some(n) => {
            let p = position(t, n);
            if p >= 0 {
                follow(t.remove(p), t[p].1)
            } else {
                Err(ErrorView::SourceNotFound(n))
            }
        },
    }
}

#[via_fn]
proof fn follow_decreases(t: Seq<Decl>, cur: SourceView) {
    if let Some(n) = cur.replace_with {
        lemma_position_bounds(t, n);
    }
}

/// The declaration where the chain for `name` starts, and the table without it.
pub open spec fn start_source(t: Seq<Decl>, name: Option<Seq<char>>) -> Result<
    (Seq<Decl>, SourceView),
    ErrorView,
> {
    let o = origin_name(name);
    let p = position(t, o);
    if p >= 0 {
        Ok((t.remove(p), t[p].1))
    } else if o == crates_io_registry() {
        Ok((t, default_source()))
    } else {
        Err(ErrorView::RegistryNotFound(o))
    }
}

/// Whether some file of the list could not be read as configuration.
pub open spec fn has_malformed(cs: Seq<Option<ConfigView>>) -> bool {
    exists|i: int| 0 <= i < cs.len() && cs[i] is None
}

/// The index URL text that a request for `name` resolves to, before it is
/// parsed.
pub open spec fn resolve_index(cs: Seq<Option<ConfigView>>, name: Option<Seq<char>>) -> Result<
    Option<Seq<char>>,
    ErrorView,
> {
    if has_malformed(cs) {
        Err(ErrorView::InvalidConfig)
    } else {
        match start_source(merged_table(cs), name) {
            Ok((rest, head)) => follow(rest, head),
            Err(e) => Err(e),
        }
    }
}

/// The registry URL that a request for `name` resolves to.
pub open spec fn resolution(cs: Seq<Option<ConfigView>>, name: Option<Seq<char>>) -> Result<
    UrlView,
    ErrorView,
> {
    match resolve_index(cs, name) {
        Err(e) => Err(e),
        Ok(None) => Err(ErrorView::InvalidConfig),
        Ok(Some(u)) => if url_parses(u) {
            Ok(parsed_url(u))
        } else {
            Err(ErrorView::InvalidConfig)
        },
    }
}

/// With no configuration file and no registry named, the default registry's
/// index URL is the result.
pub proof fn lemma_default_without_config()
    ensures
        resolve_index(Seq::empty(), None) == Ok::<Option<Seq<char>>, ErrorView>(
            Some(crates_io_index()),
        ),
{
    let cs = Seq::<Option<ConfigView>>::empty();
    assert(declarations(cs) == Seq::<Decl>::empty());
    assert(merged_table(cs) == Seq::<Decl>::empty());
    assert(position(Seq::<Decl>::empty(), crates_io_registry()) == -1);
}

/// The chain of redirects `names[0]`, `names[1]`, ... through distinct names
/// ends at the index of the last one, whatever its length.
pub proof fn lemma_redirect_chain(t: Seq<Decl>, names: Seq<Seq<char>>, index: Seq<char>)
    requires
        names.len() >= 1,
        forall|i: int, j: int| 0 <= i < j < names.len() ==> names[i] != names[j],
        forall|i: int|
            0 <= i < names.len() - 1 ==> (#[trigger] lookup(t, names[i]) matches Some(v)
                && v.replace_with == Some(names[i + 1])),
        lookup(t, names.last()) == Some(SourceView { registry: Some(index), replace_with: None }),
    ensures
        follow(t, SourceView { registry: None, replace_with: Some(names[0]) }) == Ok::<
            Option<Seq<char>>,
            ErrorView,
        >(Some(index)),
    decreases names.len(),
{
    let p = position(t, names[0]);
    lemma_position_bounds(t, names[0]);
    let start = SourceView { registry: None, replace_with: Some(names[0]) };
    assert(follow(t, start) == follow(t.remove(p), t[p].1));
    if names.len() == 1 {
        assert(follow(t.remove(p), t[p].1) == Ok::<Option<Seq<char>>, ErrorView>(Some(index)));
    } else {
        assert(lookup(t, names[0]) matches Some(v) && v.replace_with == Some(names[1]));
        let rest = t.remove(p);
        let tail = names.skip(1);
        assert forall|i: int| 0 <= i < tail.len() implies lookup(rest, tail[i]) == lookup(
            t,
            tail[i],
        ) by {
            assert(tail[i] == names[i + 1]);
            lemma_lookup_remove(t, p, tail[i]);
        }
        assert forall|i: int| 0 <= i < tail.len() - 1 implies (#[trigger] lookup(
            rest,
            tail[i],
        ) matches Some(v) && v.replace_with == Some(tail[i + 1])) by {
            assert(tail[i] == names[i + 1]);
            assert(lookup(rest, tail[i]) == lookup(t, tail[i]));
        }
        assert(tail.last() == names.last());
        assert(lookup(rest, tail.last()) == lookup(t, tail.last()));
        lemma_redirect_chain(rest, tail, index);
        let next = SourceView { registry: None, replace_with: Some(tail[0]) };
        assert(follow(rest, t[p].1) == follow(rest, next));
    }
}

/// Where the nearer files declare the requested registry as an origin, the
/// request resolves to its index, whatever the further files declare.
pub proof fn lemma_nearer_file_decides(
    near: Seq<Option<ConfigView>>,
    far: Seq<Option<ConfigView>>,
    name: Option<Seq<char>>,
)
    requires
        !has_malformed(near + far),
        lookup(merged_table(near), origin_name(name)) matches Some(v) && v.replace_with is None,
    ensures
        resolve_index(near + far, name) == Ok::<Option<Seq<char>>, ErrorView>(
            lookup(merged_table(near), origin_name(name))->Some_0.registry,
        ),
{
    let o = origin_name(name);
    let t = merged_table(near + far);
    lemma_nearer_file_wins(near, far, o);
    lemma_position_bounds(t, o);
    let p = position(t, o);
    assert(follow(t.remove(p), t[p].1) == Ok::<Option<Seq<char>>, ErrorView>(t[p].1.registry));
}

/// A named registry that no file declares is reported as not found.
pub proof fn lemma_unknown_registry(cs: Seq<Option<ConfigView>>, name: Seq<char>)
    requires
        !has_malformed(cs),
        name != crates_io_index(),
        name != crates_io_registry(),
        lookup(merged_table(cs), name) is None,
    ensures
        resolution(cs, Some(name)) == Err::<UrlView, ErrorView>(ErrorView::RegistryNotFound(name)),
{
}

/// `names` are distinct, and each of them but the last is declared in `t` as
/// a redirect to the next.
pub open spec fn redirect_links(t: Seq<Decl>, names: Seq<Seq<char>>) -> bool {
    &&& names.len() >= 1
    &&& forall|i: int, j: int| 0 <= i < j < names.len() ==> names[i] != names[j]
    &&& forall|i: int|
        0 <= i < names.len() - 1 ==> (#[trigger] lookup(t, names[i]) matches Some(v)
            && v.replace_with == Some(names[i + 1]))
}

/// A chain of redirects whose last declaration redirects to a name that `t`
/// does not declare ends in a missing source naming it, however long the
/// chain.
pub proof fn lemma_dangling_chain(t: Seq<Decl>, names: Seq<Seq<char>>, target: Seq<char>)
    requires
        redirect_links(t, names),
        lookup(t, names.last()) matches Some(v) && v.replace_with == Some(target),
        lookup(t, target) is None,
    ensures
        follow(t, SourceView { registry: None, replace_with: Some(names[0]) }) == Err::<
            Option<Seq<char>>,
            ErrorView,
        >(ErrorView::SourceNotFound(target)),
    decreases names.len(),
{
    let p = position(t, names[0]);
    lemma_position_bounds(t, names[0]);
    let start = SourceView { registry: None, replace_with: Some(names[0]) };
    assert(follow(t, start) == follow(t.remove(p), t[p].1));
    let rest = t.remove(p);
    lemma_position_bounds(t, target);
    lemma_lookup_remove(t, p, target);
    if names.len() == 1 {
        assert(follow(rest, t[p].1) == Err::<Option<Seq<char>>, ErrorView>(
            ErrorView::SourceNotFound(target),
        ));
    } else {
        assert(lookup(t, names[0]) matches Some(v) && v.replace_with == Some(names[1]));
        let tail = names.skip(1);
        assert forall|i: int| 0 <= i < tail.len() implies lookup(rest, tail[i]) == lookup(
            t,
            tail[i],
        ) by {
            assert(tail[i] == names[i + 1]);
            lemma_lookup_remove(t, p, tail[i]);
        }
        assert forall|i: int| 0 <= i < tail.len() - 1 implies (#[trigger] lookup(
            rest,
            tail[i],
        ) matches Some(v) && v.replace_with == Some(tail[i + 1])) by {
            assert(tail[i] == names[i + 1]);
            assert(lookup(rest, tail[i]) == lookup(t, tail[i]));
        }
        assert(tail.last() == names.last());
        assert(lookup(rest, tail.last()) == lookup(t, tail.last()));
        lemma_dangling_chain(rest, tail, target);
        let next = SourceView { registry: None, replace_with: Some(tail[0]) };
        assert(follow(rest, t[p].1) == follow(rest, next));
    }
}

/// A redirect, at any hop of the chain from the requested registry, to a
/// name that no file declares is reported as a missing source naming it.
pub proof fn lemma_dangling_redirect(
    cs: Seq<Option<ConfigView>>,
    name: Option<Seq<char>>,
    names: Seq<Seq<char>>,
    target: Seq<char>,
)
    requires
        !has_malformed(cs),
        redirect_links(merged_table(cs), names),
        names[0] == origin_name(name),
        lookup(merged_table(cs), names.last()) matches Some(v) && v.replace_with == Some(target),
        lookup(merged_table(cs), target) is None,
    ensures
        resolution(cs, name) == Err::<UrlView, ErrorView>(ErrorView::SourceNotFound(target)),
{
    let t = merged_table(cs);
    lemma_position_bounds(t, names[0]);
    lemma_dangling_chain(t, names, target);
    let start = SourceView { registry: None, replace_with: Some(names[0]) };
    assert(follow(t, start) == follow(t.remove(position(t, names[0])), t[position(t, names[0])].1));
}

/// A file that could not be read as configuration fails the whole
/// resolution, whatever the other files hold.
pub proof fn lemma_malformed_file_fails(cs: Seq<Option<ConfigView>>, name: Option<Seq<char>>, i: int)
    requires
        0 <= i < cs.len(),
        cs[i] is None,
    ensures
        resolution(cs, name) == Err::<UrlView, ErrorView>(ErrorView::InvalidConfig),
{
}

/// Merges the configuration files, nearest first, into one table; fails on
/// the first file that could not be read as configuration.
pub fn build_table(configs: &Vec<Option<ConfigFile>>) -> (r: Result<SourceTable, Error>)
    ensures
        match r {
            Ok(t) => !has_malformed(configs_view(configs@)) && t@ == merged_table(
                configs_view(configs@),
            ) && t.wf(),
            Err(e) => has_malformed(configs_view(configs@)) && e@ == ErrorView::InvalidConfig,
        },
{
    let ghost cs = configs_view(configs@);
    let mut table = SourceTable::new();
    let mut i: usize = 0;
    while i < configs.len()
        invariant
            i <= configs@.len(),
            cs == configs_view(configs@),
            forall|j: int| 0 <= j < i ==> cs[j] is Some,
            table@ == merged_table(cs.take(i as int)),
            table.wf(),
        decreases configs@.len() - i,
    {
        match &configs[i] {
            None => {
                assert(cs[i as int] is None);
                return Err(Error::InvalidConfig);
            },
            Some(c) => {
                proof {
                    assert(cs.take(i + 1).drop_last() =~= cs.take(i as int));
                    assert(cs.take(i + 1).last() == Some(c@));
                    lemma_absorb_append(
                        seq![],
                        declarations(cs.take(i as int)),
                        file_decls(c@),
                    );
                }
                table.merge_file(c);
            },
        }
        i = i + 1;
    }
    assert(cs.take(i as int) =~= cs);
    Ok(table)
}

/// Follows the redirects from `start` through `table`, consuming each
/// declaration that it reaches.
pub fn follow_redirects(table: &mut SourceTable, start: SourceEntry) -> (r: Result<
    Option<String>,
    Error,
>)
    ensures
        match follow(old(table)@, start@) {
            Ok(u) => r matches Ok(x) && crate::config::opt_view(x) == u,
            Err(e) => r matches Err(x) && x@ == e,
        },
{
    let mut cur = start;
    loop
        invariant
            follow(table@, cur@) == follow(old(table)@, start@),
        decreases table@.len(),
    {
        let SourceEntry { registry, replace_with } = cur;
        match replace_with {
            None => {
                return Ok(registry);
            },
            Some(n) => {
                match table.find(&n) {
                    None => {
                        return Err(Error::SourceNotFound(n));
                    },
                    Some(p) => {
                        proof {
                            lemma_position_bounds(table@, n@);
                        }
                        cur = table.take_entry(p);
                    },
                }
            },
        }
    }
}

/// Locates the index URL of the registry `registry` (the default registry
/// where it is `None` or the default index URL), given the configuration
/// files that exist, nearest to the manifest first and the global one last.
/// A file that could not be parsed as configuration is `None`. Where no file
/// declares the default registry's reserved name, it stands for the default
/// index. Each redirect consumes the declaration it reaches, so a cycle of
/// `replace-with` ends in `SourceNotFound` instead of looping.
pub fn registry_url(configs: &Vec<Option<ConfigFile>>, registry: Option<&str>) -> (r: Result<
    RegistryUrl,
    Error,
>)
    ensures
        match resolution(configs_view(configs@), name_view(registry)) {
            Ok(u) => r matches Ok(x) && x@ == u,
            Err(e) => r matches Err(x) && x@ == e,
        },
{
    let mut table = match build_table(configs) {
        Ok(t) => t,
        Err(e) => {
            return Err(e);
        },
    };
    let ghost t0 = table@;
    let defaulted = match registry {
        None => true,
        Some(r) => String::from_str(r) == String::from_str(
            "https://github.com/rust-lang/crates.io-index",
        ),
    };
    let origin = if defaulted {
        String::from_str("crates-io")
    } else {
        match registry {
            Some(r) => String::from_str(r),
            None => String::new(),
        }
    };
    assert(origin@ == origin_name(name_view(registry)));
    let head = match table.find(&origin) {
        Some(p) => {
            proof {
                lemma_position_bounds(table@, origin@);
            }
            table.take_entry(p)
        },
        None => {
            if origin == String::from_str("crates-io") {
                SourceEntry {
                    registry: Some(String::from_str("https://github.com/rust-lang/crates.io-index")),
                    replace_with: None,
                }
            } else {
                return Err(Error::RegistryNotFound(origin));
            }
        },
    };
    match follow_redirects(&mut table, head) {
        Err(e) => Err(e),
        Ok(None) => Err(Error::InvalidConfig),
        Ok(Some(u)) => match RegistryUrl::parse(u.as_str()) {
            Some(x) => Ok(x),
            None => Err(Error::InvalidConfig),
        },
    }
}

/// The index cache directory of the requested registry under the tool's home
/// directory `home` (`None` where it could not be determined).
pub fn registry_path(
    home: Option<&str>,
    configs: &Vec<Option<ConfigFile>>,
    registry: Option<&str>,
) -> (r: Result<String, Error>)
    ensures
        match home {
            None => r matches Err(e) && e@ == ErrorView::HomeDirUnavailable,
            Some(h) => match resolution(configs_view(configs@), name_view(registry)) {
                Ok(u) => r matches Ok(p) && p@ == cache_path_of(h@, u),
                Err(e) => r matches Err(x) && x@ == e,
            },
        },
{
    match home {
        None => Err(Error::HomeDirUnavailable),
        Some(h) => match registry_url(configs, registry) {
            Ok(u) => Ok(registry_path_from_url(h, &u)),
            Err(e) => Err(e),
        },
    }
}

} // verus!
