//! The parts of a project's `package.json` that Vault reads and edits.
//!
//! Reading and writing the JSON document is the caller's; it hands over the
//! sections here and writes the edited sections back, keeping every field
//! that Vault does not understand.

use crate::error::VaultError;
use crate::strmap::StrMap;
use crate::text::opt_string_view;
use vstd::prelude::*;

verus! {

/// A top-level section of `package.json` (dependencies, scripts, ...).
pub enum Section {
    /// The key is absent.
    Absent,
    /// The key holds something other than an object.
    Other,
    /// The key holds an object; each entry's value is its text when it is a
    /// string, `None` otherwise.
    Object(StrMap<Option<String>>),
}

/// The parts of `package.json` that Vault reads and edits.
pub struct PackageJson {
    /// Whether the document is a JSON object at all.
    pub is_object: bool,
    /// The `name` field, when it is a string.
    pub name: Option<String>,
    pub dependencies: Section,
    pub optional_dependencies: Section,
    pub dev_dependencies: Section,
    pub scripts: Section,
}

/// The string-valued entries of a section.
pub open spec fn string_entries(sec: Section) -> Map<Seq<char>, Seq<char>> {
    match sec {
        Section::Object(m) => Map::new(
            |k: Seq<char>| m@.contains_key(k) && m@[k] is Some,
            |k: Seq<char>| m@[k]->0@,
        ),
        _ => Map::empty(),
    }
}

/// Runtime and optional dependencies, then dev dependencies when asked,
/// merged; a later section wins on a repeated name.
pub open spec fn merged_dependencies(pj: PackageJson, include_dev: bool) -> Map<Seq<char>, Seq<char>> {
    let base = string_entries(pj.dependencies).union_prefer_right(
        string_entries(pj.optional_dependencies),
    );
    if include_dev {
        base.union_prefer_right(string_entries(pj.dev_dependencies))
    } else {
        base
    }
}

/// The text views of a map of strings.
pub open spec fn text_map(m: Map<Seq<char>, String>) -> Map<Seq<char>, Seq<char>> {
    Map::new(|k: Seq<char>| m.contains_key(k), |k: Seq<char>| m[k]@)
}

fn collect_into(sec: &Section, out: &mut StrMap<String>)
    ensures
        text_map(final(out)@) == text_map(old(out)@).union_prefer_right(string_entries(*sec)),
{
    if let Section::Object(m) = sec {
        let n = m.len();
        let ghost pairs = m.pairs();
        let ghost start = text_map(out@);
        let mut i: usize = 0;
        while i < n
            invariant
                i <= n == pairs.len(),
                pairs == m.pairs(),
                forall|j: int| 0 <= j < pairs.len() ==> m@.contains_key(#[trigger] pairs[j].0) && m@[pairs[j].0] == pairs[j].1,
                forall|k: Seq<char>| #[trigger] m@.contains_key(k) <==> exists|j: int| 0 <= j < pairs.len() && pairs[j].0 == k,
                crate::strmap::keys_distinct(pairs),
                text_map(out@) == start.union_prefer_right(
                    Map::new(
                        |k: Seq<char>| exists|j: int| 0 <= j < i && pairs[j].0 == k && pairs[j].1 is Some,
                        |k: Seq<char>| m@[k]->0@,
                    ),
                ),
            decreases n - i,
        {
            let name = m.key_at(i);
            let value = m.value_at(i);
            let ghost before = text_map(out@);
            if let Some(range) = value {
                out.insert(name.clone(), range.clone());
            }
            proof {
                let prev = Map::new(
                    |k: Seq<char>| exists|j: int| 0 <= j < i && pairs[j].0 == k && pairs[j].1 is Some,
                    |k: Seq<char>| m@[k]->0@,
                );
                let next = Map::new(
                    |k: Seq<char>| exists|j: int| 0 <= j < i + 1 && pairs[j].0 == k && pairs[j].1 is Some,
                    |k: Seq<char>| m@[k]->0@,
                );
                assert forall|k: Seq<char>| next.contains_key(k) <==> (prev.contains_key(k) || (k == pairs[i as int].0 && pairs[i as int].1 is Some)) by {
                    if next.contains_key(k) {
                        let j = choose|j: int| 0 <= j < i + 1 && pairs[j].0 == k && pairs[j].1 is Some;
                        if j < i {
                            assert(prev.contains_key(k));
                        }
                    }
                }
                assert(m@[pairs[i as int].0] == pairs[i as int].1);
                if pairs[i as int].1 is Some {
                    assert(text_map(out@) =~= before.insert(pairs[i as int].0, pairs[i as int].1->0@));
                    assert(next =~= prev.insert(pairs[i as int].0, pairs[i as int].1->0@));
                    assert(start.union_prefer_right(next) =~= start.union_prefer_right(prev).insert(
                        pairs[i as int].0,
                        pairs[i as int].1->0@,
                    ));
                } else {
                    assert(text_map(out@) =~= before);
                    assert(next =~= prev);
                }
                assert(text_map(out@) =~= start.union_prefer_right(next));
            }
            i += 1;
        }
        proof {
            let all = Map::new(
                |k: Seq<char>| exists|j: int| 0 <= j < n && pairs[j].0 == k && pairs[j].1 is Some,
                |k: Seq<char>| m@[k]->0@,
            );
            assert forall|k: Seq<char>| all.contains_key(k) <==> string_entries(*sec).contains_key(k) by {
                if m@.contains_key(k) && m@[k] is Some {
                    let j = choose|j: int| 0 <= j < pairs.len() && pairs[j].0 == k;
                    assert(pairs[j].1 is Some);
                }
            }
            assert(all =~= string_entries(*sec));
        }
    } else {
        assert(text_map(out@) =~= text_map(out@).union_prefer_right(string_entries(*sec)));
    }
}

impl PackageJson {
    /// The package `name`, if present.
    pub fn name(&self) -> (r: Option<&String>)
        ensures
            match r {
                Some(n) => self.name == Some(*n),
                None => self.name is None,
            },
    {
        match &self.name {
            Some(n) => Some(n),
            None => None,
        }
    }

    /// Runtime and optional dependency requirements, and dev ones when
    /// asked, merged into one map of `name -> version range`.
    pub fn all_dependencies(&self, include_dev: bool) -> (deps: StrMap<String>)
        ensures
            text_map(deps@) == merged_dependencies(*self, include_dev),
    {
        let mut deps: StrMap<String> = StrMap::new();
        assert(text_map(deps@) =~= Map::<Seq<char>, Seq<char>>::empty());
        collect_into(&self.dependencies, &mut deps);
        assert(Map::<Seq<char>, Seq<char>>::empty().union_prefer_right(
            string_entries(self.dependencies),
        ) =~= string_entries(self.dependencies));
        collect_into(&self.optional_dependencies, &mut deps);
        if include_dev {
            collect_into(&self.dev_dependencies, &mut deps);
        }
        deps
    }

    /// The body of a named entry of `scripts`, when it is a string.
    pub fn script(&self, name: &str) -> (r: Option<String>)
        ensures
            opt_string_view(r) == match self.scripts {
                Section::Object(m) => if m@.contains_key(name@) {
                    opt_string_view(m@[name@])
                } else {
                    None
                },
                _ => None,
            },
    {
        match &self.scripts {
            Section::Object(m) => match m.get(name) {
                Some(Some(body)) => Some(body.clone()),
                _ => None,
            },
            _ => None,
        }
    }

    /// Insert or update a dependency in `dependencies`; a `dependencies`
    /// key that holds something other than an object is left alone.
    pub fn set_dependency(&mut self, name: &str, range: &str)
        requires
            old(self).is_object,
        ensures
            final(self).is_object,
            final(self).name == old(self).name,
            final(self).optional_dependencies == old(self).optional_dependencies,
            final(self).dev_dependencies == old(self).dev_dependencies,
            final(self).scripts == old(self).scripts,
            match old(self).dependencies {
                Section::Other => final(self).dependencies is Other,
                _ => string_entries(final(self).dependencies) == string_entries(
                    old(self).dependencies,
                ).insert(name@, range@) && final(self).dependencies is Object,
            },
            match (old(self).dependencies, final(self).dependencies) {
                (Section::Object(a), Section::Object(b)) => b@.dom() == a@.dom().insert(name@),
                (Section::Absent, Section::Object(b)) => b@.dom() == set![name@],
                _ => true,
            },
    {
        let mut deps = Section::Absent;
        std::mem::swap(&mut deps, &mut self.dependencies);
        let next = match deps {
            Section::Absent => {
                let mut m: StrMap<Option<String>> = StrMap::new();
                m.insert(name.to_owned(), Some(range.to_owned()));
                assert(string_entries(Section::Object(m)) =~= Map::<Seq<char>, Seq<char>>::empty().insert(name@, range@));
                assert(m@.dom() =~= set![name@]);
                Section::Object(m)
            },
            Section::Other => Section::Other,
            Section::Object(mut m) => {
                let ghost before = m;
                m.insert(name.to_owned(), Some(range.to_owned()));
                assert(string_entries(Section::Object(m)) =~= string_entries(Section::Object(before)).insert(name@, range@));
                Section::Object(m)
            },
        };
        self.dependencies = next;
    }

    /// Remove a dependency from every dependency section; whether it was
    /// present in any.
    pub fn remove_dependency(&mut self, name: &str) -> (removed: bool)
        ensures
            final(self).is_object == old(self).is_object,
            final(self).name == old(self).name,
            final(self).scripts == old(self).scripts,
            removed == (old(self).is_object && (section_has(old(self).dependencies, name@)
                || section_has(old(self).dev_dependencies, name@) || section_has(
                old(self).optional_dependencies,
                name@,
            ))),
            old(self).is_object ==> {
                &&& section_removed(old(self).dependencies, final(self).dependencies, name@)
                &&& section_removed(old(self).dev_dependencies, final(self).dev_dependencies, name@)
                &&& section_removed(
                    old(self).optional_dependencies,
                    final(self).optional_dependencies,
                    name@,
                )
            },
            !old(self).is_object ==> *final(self) == *old(self),
    {
        if !self.is_object {
            return false;
        }
        let a = remove_from(&mut self.dependencies, name);
        let b = remove_from(&mut self.dev_dependencies, name);
        let c = remove_from(&mut self.optional_dependencies, name);
        a || b || c
    }
}

/// Whether a section is an object with key `name`.
pub open spec fn section_has(sec: Section, name: Seq<char>) -> bool {
    sec matches Section::Object(m) && m@.contains_key(name)
}

/// Whether `after` is `before` without key `name` (sections that are not
/// objects are left alone).
pub open spec fn section_removed(before: Section, after: Section, name: Seq<char>) -> bool {
    match before {
        Section::Object(m) => after matches Section::Object(m2) && m2@ == m@.remove(name),
        _ => after == before,
    }
}

fn remove_from(sec: &mut Section, name: &str) -> (removed: bool)
    ensures
        removed == section_has(*old(sec), name@),
        section_removed(*old(sec), *final(sec), name@),
{
    match sec {
        Section::Object(m) => {
            let r = m.remove(name);
            match r {
                Some(_) => true,
                None => false,
            }
        },
        _ => false,
    }
}

/// The error of a script name that `package.json` does not define.
pub open spec fn missing_script_message(script: Seq<char>) -> Seq<char> {
    "no script named `"@ + script + "` in package.json"@
}

/// The body of the script to run, or a configuration error when
/// `package.json` does not define it.
pub fn named_script(pkg: &PackageJson, script: &str) -> (r: Result<String, VaultError>)
    ensures
        match r {
            Ok(body) => pkg.scripts matches Section::Object(m) && m@.contains_key(script@)
                && m@[script@] == Some(body),
            Err(VaultError::Config(m)) => m@ == missing_script_message(script@) && !(pkg.scripts matches Section::Object(m) && m@.contains_key(script@)
                && m@[script@] is Some),
            Err(_) => false,
        },
{
    match &pkg.scripts {
        Section::Object(m) => match m.get(script) {
            Some(Some(body)) => return Ok(body.clone()),
            _ => {},
        },
        _ => {},
    }
    let mut msg = "no script named `".to_owned();
    msg.append(script);
    msg.append("` in package.json");
    Err(VaultError::Config(msg))
}

} // verus!
