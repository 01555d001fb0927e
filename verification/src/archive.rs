//! Interpretation of install payloads packed as zip archives: the member
//! list is read through the zip crate, and the member paths are then
//! adjusted by the rules the store prescribes (single `.lua` member
//! renamed, a shared leading directory stripped).
use crate::paths::{eq_ignore_ascii_case, eq_ignore_ascii_case_spec, extension_of, name_extension};
use std::io::Cursor;
use std::io::Read;
use vstd::prelude::*;

verus! {

/// One file or directory of a payload: its path as a list of components,
/// whether it is a directory, and its contents.
pub struct TreeEntry {
    pub components: Vec<String>,
    pub is_dir: bool,
    pub data: Vec<u8>,
}

/// Mathematical value of a `TreeEntry`.
#[verifier::ext_equal]
pub ghost struct TreeEntryView {
    pub components: Seq<Seq<char>>,
    pub is_dir: bool,
    pub data: Seq<u8>,
}

impl View for TreeEntry {
    type V = TreeEntryView;

    open spec fn view(&self) -> TreeEntryView {
        TreeEntryView { components: self.components.deep_view(), is_dir: self.is_dir, data: self.data@ }
    }
}

impl TreeEntry {
    pub fn clone_value(&self) -> (r: TreeEntry)
        ensures
            r@ == self@,
    {
        let mut components: Vec<String> = Vec::new();
        let mut i: usize = 0;
        while i < self.components.len()
            invariant
                i <= self.components@.len(),
                components@.len() == i,
                forall|k: int| 0 <= k < i ==> components@[k]@ == self.components@[k]@,
            decreases self.components@.len() - i,
        {
            components.push(self.components[i].clone());
            i += 1;
        }
        let r = TreeEntry { components, is_dir: self.is_dir, data: self.data.clone() };
        proof {
            assert(r.components.deep_view() =~= self.components.deep_view());
            assert(r@ =~= self@);
        }
        r
    }
}

/// One member of a zip archive: the name exactly as the archive stores
/// it, the safe relative path derived from it, the directory flag, and
/// the decompressed contents. The stored name is kept so the install
/// rules can reject a member whose name escapes the archive root.
pub struct ZipMember {
    pub name: String,
    pub components: Vec<String>,
    pub is_dir: bool,
    pub data: Vec<u8>,
}

/// Mathematical value of a `ZipMember`.
#[verifier::ext_equal]
pub ghost struct ZipMemberView {
    pub name: Seq<char>,
    pub components: Seq<Seq<char>>,
    pub is_dir: bool,
    pub data: Seq<u8>,
}

impl View for ZipMember {
    type V = ZipMemberView;

    open spec fn view(&self) -> ZipMemberView {
        ZipMemberView {
            name: self.name@,
            components: self.components.deep_view(),
            is_dir: self.is_dir,
            data: self.data@,
        }
    }
}

/// The members of a zip archive given by its bytes: each member's
/// stored name, safe relative path, directory flag and decompressed
/// contents, in archive order; nothing, when the bytes are not a
/// readable archive, a member's path resolves upward out of the root,
/// or a name is not valid unicode. Stored names are handed out raw —
/// an absolute name, in particular, is merely rooted under the
/// destination by the derived path — so that the install rules can
/// judge them.
pub uninterp spec fn zip_entries_of(data: Seq<u8>) -> Option<Seq<ZipMemberView>>;

/// Relies on zip::ZipArchive (new, len, by_index) and
/// zip::read::ZipFile (name, enclosed_name): lists an archive's members
/// under their stored names and safe relative paths, with contents read
/// through std::io::Read.
#[verifier::external_body]
pub fn read_zip_entries(data: &Vec<u8>) -> (r: Option<Vec<ZipMember>>)
    ensures
        match r {
            Some(members) => zip_entries_of(data@) == Some(
                members@.map_values(|m: ZipMember| m@),
            ),
            None => zip_entries_of(data@) is None,
        },
{
    let mut archive = zip::ZipArchive::new(Cursor::new(data.as_slice())).ok()?;
    let mut out = Vec::new();
    for i in 0..archive.len() {
        let mut f = archive.by_index(i).ok()?;
        let path = f.enclosed_name()?;
        let components = path.iter().map(
            |c| c.to_str().map(|s| s.to_string()),
        ).collect::<Option<Vec<String>>>()?;
        let mut contents = Vec::new();
        if !f.is_dir() {
            f.read_to_end(&mut contents).ok()?;
        }
        out.push(ZipMember { name: f.name().to_string(), components, is_dir: f.is_dir(), data: contents });
    }
    Some(out)
}

/// A path separator as archives write them.
pub open spec fn is_sep(c: char) -> bool {
    c == '/' || c == '\\'
}

/// Whether a stored member name holds a `..` path component.
pub open spec fn has_parent_component(name: Seq<char>) -> bool {
    exists|i: int|
        0 <= i && i + 2 <= name.len() && #[trigger] name[i] == '.' && name[i + 1] == '.' && (i == 0
            || is_sep(name[i - 1])) && (i + 2 == name.len() || is_sep(name[i + 2]))
}

/// Whether a stored member name stays inside the archive root: it is
/// not absolute and traverses no parent directory. A member that fails
/// this is rejected before anything of the archive is used.
pub open spec fn member_name_enclosed(name: Seq<char>) -> bool {
    &&& !(name.len() > 0 && is_sep(name[0]))
    &&& !has_parent_component(name)
}

fn is_sep_char(c: char) -> (r: bool)
    ensures
        r == is_sep(c),
{
    c == '/' || c == '\\'
}

/// Decides whether a stored member name stays inside the archive root.
pub fn name_enclosed(name: &str) -> (r: bool)
    ensures
        r == member_name_enclosed(name@),
{
    let n = name.unicode_len();
    if n > 0 && is_sep_char(name.get_char(0)) {
        return false;
    }
    let mut i: usize = 0;
    while i < n
        invariant
            i <= n,
            n == name@.len(),
            forall|k: int|
                0 <= k < i ==> !(k + 2 <= name@.len() && #[trigger] name@[k] == '.' && name@[k + 1]
                    == '.' && (k == 0 || is_sep(name@[k - 1])) && (k + 2 == name@.len() || is_sep(
                    name@[k + 2],
                ))),
        decreases n - i,
    {
        let hit = n - i >= 2 && name.get_char(i) == '.' && name.get_char(i + 1) == '.' && (i == 0
            || is_sep_char(name.get_char(i - 1))) && (n - i == 2 || is_sep_char(
            name.get_char(i + 2),
        ));
        if hit {
            proof {
                assert(has_parent_component(name@));
            }
            return false;
        }
        i += 1;
    }
    proof {
        assert(!has_parent_component(name@));
    }
    true
}

/// Whether every member's stored name stays inside the archive root.
pub open spec fn all_names_enclosed(members: Seq<ZipMemberView>) -> bool {
    forall|i: int| 0 <= i < members.len() ==> member_name_enclosed((#[trigger] members[i]).name)
}

/// Decides whether every member of an archive stays inside its root.
pub fn members_enclosed(members: &Vec<ZipMember>) -> (r: bool)
    ensures
        r == all_names_enclosed(members@.map_values(|m: ZipMember| m@)),
{
    let ghost mv = members@.map_values(|m: ZipMember| m@);
    let mut i: usize = 0;
    while i < members.len()
        invariant
            i <= members@.len(),
            mv == members@.map_values(|m: ZipMember| m@),
            forall|k: int| 0 <= k < i ==> member_name_enclosed((#[trigger] mv[k]).name),
        decreases members@.len() - i,
    {
        if !name_enclosed(members[i].name.as_str()) {
            proof {
                assert(!member_name_enclosed(mv[i as int].name));
                assert(!all_names_enclosed(mv));
            }
            return false;
        }
        i += 1;
    }
    true
}

/// Whether a member path names a `.lua` file: it has components and the
/// last one carries the `lua` extension.
pub open spec fn is_lua_path(p: Seq<Seq<char>>) -> bool {
    p.len() > 0 && extension_of(p.last()) == Some("lua"@)
}

/// How many member paths name `.lua` files.
pub open spec fn count_lua_spec(paths: Seq<Seq<Seq<char>>>) -> nat
    decreases paths.len(),
{
    if paths.len() == 0 {
        0
    } else {
        count_lua_spec(paths.drop_last()) + if is_lua_path(paths.last()) {
            1nat
        } else {
            0nat
        }
    }
}

fn is_lua_component_path(p: &Vec<String>) -> (r: bool)
    ensures
        r == is_lua_path(p.deep_view()),
{
    if p.len() == 0 {
        return false;
    }
    let last = &p[p.len() - 1];
    proof {
        assert(p.deep_view().last() == last@);
    }
    match name_extension(last.as_str()) {
        None => false,
        Some(e) => e == String::from_str("lua"),
    }
}

/// Counts the member paths that name `.lua` files.
pub fn count_lua_paths(paths: &Vec<Vec<String>>) -> (r: usize)
    ensures
        r == count_lua_spec(paths.deep_view()),
{
    let mut count: usize = 0;
    let mut i: usize = 0;
    while i < paths.len()
        invariant
            i <= paths@.len(),
            count == count_lua_spec(paths.deep_view().take(i as int)),
            count <= i,
        decreases paths@.len() - i,
    {
        proof {
            let dv = paths.deep_view();
            assert(dv.take(i + 1).drop_last() =~= dv.take(i as int));
            assert(dv.take(i + 1).last() == dv[i as int]);
        }
        if is_lua_component_path(&paths[i]) {
            count += 1;
        }
        i += 1;
    }
    proof {
        assert(paths.deep_view().take(paths@.len() as int) =~= paths.deep_view());
    }
    count
}

/// The first component of a member path, when it has one.
pub open spec fn first_comp(p: Seq<Seq<char>>) -> Option<Seq<char>> {
    if p.len() == 0 {
        None
    } else {
        Some(p[0])
    }
}

/// The first component of the last member path that has one.
pub open spec fn last_first_comp(paths: Seq<Seq<Seq<char>>>) -> Option<Seq<char>>
    decreases paths.len(),
{
    if paths.len() == 0 {
        None
    } else if first_comp(paths.last()) is Some {
        first_comp(paths.last())
    } else {
        last_first_comp(paths.drop_last())
    }
}

/// Whether a member path starts with a component that marks game data
/// (`data` or `soundbank`, compared without regard to ASCII case); such
/// an archive keeps its layout.
pub open spec fn is_ignored_first(p: Seq<Seq<char>>) -> bool {
    p.len() > 0 && (eq_ignore_ascii_case_spec(p[0], "data"@) || eq_ignore_ascii_case_spec(
        p[0],
        "soundbank"@,
    ))
}

/// Whether the shared leading component of the member paths is to be
/// stripped: all paths must agree on their first component, none may
/// mark game data, and a lone single-component path is left alone.
pub open spec fn same_prefix_spec(paths: Seq<Seq<Seq<char>>>) -> bool {
    if paths.len() == 1 && paths[0].len() == 1 {
        false
    } else if exists|i: int| 0 <= i < paths.len() && is_ignored_first(#[trigger] paths[i]) {
        false
    } else {
        forall|i: int| 0 <= i < paths.len() ==> first_comp(#[trigger] paths[i]) == last_first_comp(
            paths,
        )
    }
}

/// Decides whether the member paths share one strippable leading
/// component.
pub fn paths_have_same_prefix(paths: &Vec<Vec<String>>) -> (r: bool)
    ensures
        r == same_prefix_spec(paths.deep_view()),
{
    if paths.len() == 1 && paths[0].len() == 1 {
        return false;
    }
    let ghost dv = paths.deep_view();

    let mut prefix_idx: Option<usize> = None;
    let mut i: usize = 0;
    while i < paths.len()
        invariant
            i <= paths@.len(),
            dv == paths.deep_view(),
            forall|k: int| 0 <= k < i ==> !is_ignored_first(#[trigger] dv[k]),
            match prefix_idx {
                Some(j) => j < i && dv[j as int].len() > 0 && last_first_comp(dv.take(i as int))
                    == Some(dv[j as int][0]),
                None => last_first_comp(dv.take(i as int)) is None,
            },
        decreases paths@.len() - i,
    {
        proof {
            assert(dv.take(i + 1).drop_last() =~= dv.take(i as int));
            assert(dv.take(i + 1).last() == dv[i as int]);
        }
        let p = &paths[i];
        if p.len() > 0 {
            let head = &p[0];
            proof {
                assert(dv[i as int][0] == head@);
            }
            if eq_ignore_ascii_case(head.as_str(), "data") || eq_ignore_ascii_case(
                head.as_str(),
                "soundbank",
            ) {
                return false;
            }
            prefix_idx = Some(i);
        }
        i += 1;
    }
    proof {
        assert(dv.take(dv.len() as int) =~= dv);
    }

    let mut k: usize = 0;
    while k < paths.len()
        invariant
            k <= paths@.len(),
            dv == paths.deep_view(),
            forall|j: int| 0 <= j < dv.len() ==> !is_ignored_first(#[trigger] dv[j]),
            !(paths@.len() == 1 && dv[0].len() == 1),
            match prefix_idx {
                Some(j) => j < paths@.len() && dv[j as int].len() > 0 && last_first_comp(dv)
                    == Some(dv[j as int][0]),
                None => last_first_comp(dv) is None,
            },
            forall|j: int| 0 <= j < k ==> first_comp(#[trigger] dv[j]) == last_first_comp(dv),
        decreases paths@.len() - k,
    {
        let p = &paths[k];
        let matches_prefix = match &prefix_idx {
            Some(j) => {
                if p.len() == 0 {
                    false
                } else {
                    let head = &p[0];
                    let pref = &paths[*j][0];
                    proof {
                        assert(dv[k as int][0] == head@);
                        assert(dv[prefix_idx->Some_0 as int][0] == pref@);
                    }
                    *head == *pref
                }
            },
            None => p.len() == 0,
        };
        if !matches_prefix {
            proof {
                assert(first_comp(dv[k as int]) != last_first_comp(dv));
            }
            return false;
        }
        k += 1;
    }
    true
}

/// A member path after the adjustments: with a `.lua` file name replaced
/// by `main.lua` when `rename_lua` is set, and the leading component
/// dropped when `remove_first` is set.
pub open spec fn fix_path_spec(p: Seq<Seq<char>>, rename_lua: bool, remove_first: bool) -> Seq<
    Seq<char>,
> {
    let renamed = if rename_lua && is_lua_path(p) {
        p.update(p.len() - 1, "main.lua"@)
    } else {
        p
    };
    if remove_first && renamed.len() > 0 {
        renamed.drop_first()
    } else {
        renamed
    }
}

/// All member paths after the adjustments.
pub open spec fn fix_zip_names_spec(
    paths: Seq<Seq<Seq<char>>>,
    rename_lua: bool,
    remove_first: bool,
) -> Seq<Seq<Seq<char>>> {
    paths.map_values(|p: Seq<Seq<char>>| fix_path_spec(p, rename_lua, remove_first))
}

/// Applies the renaming and stripping adjustments to the member paths.
pub fn fix_zip_names(paths: Vec<Vec<String>>, rename_lua: bool, remove_first: bool) -> (r: Vec<
    Vec<String>,
>)
    ensures
        r.deep_view() == fix_zip_names_spec(paths.deep_view(), rename_lua, remove_first),
{
    let ghost dv = paths.deep_view();
    let mut out: Vec<Vec<String>> = Vec::new();
    let mut i: usize = 0;
    while i < paths.len()
        invariant
            i <= paths@.len(),
            dv == paths.deep_view(),
            out@.len() == i,
            forall|k: int|
                0 <= k < i ==> out@[k].deep_view() == fix_path_spec(
                    #[trigger] dv[k],
                    rename_lua,
                    remove_first,
                ),
        decreases paths@.len() - i,
    {
        let p = &paths[i];
        let mut fixed: Vec<String> = Vec::new();
        let mut c: usize = 0;
        while c < p.len()
            invariant
                c <= p@.len(),
                fixed@.len() == c,
                forall|k: int| 0 <= k < c ==> fixed@[k]@ == p@[k]@,
            decreases p@.len() - c,
        {
            fixed.push(p[c].clone());
            c += 1;
        }
        proof {
            assert(fixed.deep_view() =~= dv[i as int]);
        }
        if rename_lua && is_lua_component_path(p) {
            let last = fixed.len() - 1;
            fixed.set(last, String::from_str("main.lua"));
            proof {
                assert(fixed.deep_view() =~= dv[i as int].update(
                    dv[i as int].len() - 1,
                    "main.lua"@,
                ));
            }
        }
        if remove_first && fixed.len() > 0 {
            fixed.remove(0);
        }
        proof {
            assert(fixed.deep_view() =~= fix_path_spec(dv[i as int], rename_lua, remove_first));
        }
        out.push(fixed);
        i += 1;
    }
    proof {
        assert(out.deep_view() =~= fix_zip_names_spec(dv, rename_lua, remove_first));
    }
    out
}

/// The member paths of a list of entries.
pub open spec fn paths_of_entries(members: Seq<ZipMemberView>) -> Seq<Seq<Seq<char>>> {
    members.map_values(|m: ZipMemberView| m.components)
}

/// The entries of an archive as they are to be installed: paths adjusted
/// by the renaming rule (exactly one `.lua` member) and the stripping
/// rule (one shared, non-data leading component), contents untouched.
pub open spec fn planned_entries_spec(members: Seq<ZipMemberView>) -> Seq<TreeEntryView> {
    let paths = paths_of_entries(members);
    let rename_lua = count_lua_spec(paths) == 1;
    let remove_first = same_prefix_spec(paths);
    Seq::new(
        members.len(),
        |i: int|
            TreeEntryView {
                components: fix_path_spec(members[i].components, rename_lua, remove_first),
                is_dir: members[i].is_dir,
                data: members[i].data,
            },
    )
}

/// Computes the install plan for an archive's entries.
pub fn plan_zip_entries(members: Vec<ZipMember>) -> (r: Vec<TreeEntry>)
    ensures
        r@.map_values(|e: TreeEntry| e@) == planned_entries_spec(
            members@.map_values(|m: ZipMember| m@),
        ),
{
    let ghost ev = members@.map_values(|m: ZipMember| m@);
    let mut paths: Vec<Vec<String>> = Vec::new();
    let mut i: usize = 0;
    while i < members.len()
        invariant
            i <= members@.len(),
            ev == members@.map_values(|m: ZipMember| m@),
            paths@.len() == i,
            forall|k: int| 0 <= k < i ==> paths@[k].deep_view() == ev[k].components,
        decreases members@.len() - i,
    {
        let mut comps: Vec<String> = Vec::new();
        let p = &members[i].components;
        let mut c: usize = 0;
        while c < p.len()
            invariant
                c <= p@.len(),
                comps@.len() == c,
                forall|k: int| 0 <= k < c ==> comps@[k]@ == p@[k]@,
            decreases p@.len() - c,
        {
            comps.push(p[c].clone());
            c += 1;
        }
        proof {
            assert(comps.deep_view() =~= ev[i as int].components);
        }
        paths.push(comps);
        i += 1;
    }
    proof {
        assert(paths.deep_view() =~= paths_of_entries(ev));
    }
    let rename_lua = count_lua_paths(&paths) == 1;
    let remove_first = paths_have_same_prefix(&paths);
    let ghost pdv = paths.deep_view();
    let fixed = fix_zip_names(paths, rename_lua, remove_first);
    proof {
        assert(fixed.deep_view() == fix_zip_names_spec(pdv, rename_lua, remove_first));
        assert(fixed.deep_view().len() == pdv.len());
        assert(pdv.len() == paths_of_entries(ev).len());
        assert(fixed@.len() == fixed.deep_view().len());
    }

    let mut out: Vec<TreeEntry> = Vec::new();
    let mut j: usize = 0;
    while j < members.len()
        invariant
            j <= members@.len(),
            ev == members@.map_values(|m: ZipMember| m@),
            fixed.deep_view() == fix_zip_names_spec(paths_of_entries(ev), rename_lua, remove_first),
            fixed@.len() == members@.len(),
            rename_lua == (count_lua_spec(paths_of_entries(ev)) == 1),
            remove_first == same_prefix_spec(paths_of_entries(ev)),
            out@.len() == j,
            forall|k: int|
                0 <= k < j ==> (#[trigger] out@[k])@ == (TreeEntryView {
                    components: fix_path_spec(ev[k].components, rename_lua, remove_first),
                    is_dir: ev[k].is_dir,
                    data: ev[k].data,
                }),
        decreases members@.len() - j,
    {
        let mut comps: Vec<String> = Vec::new();
        let fp = &fixed[j];
        let mut c: usize = 0;
        while c < fp.len()
            invariant
                c <= fp@.len(),
                comps@.len() == c,
                forall|k: int| 0 <= k < c ==> comps@[k]@ == fp@[k]@,
            decreases fp@.len() - c,
        {
            comps.push(fp[c].clone());
            c += 1;
        }
        proof {
            assert(comps.deep_view() =~= fixed.deep_view()[j as int]);
            assert(fixed.deep_view()[j as int] == fix_path_spec(
                paths_of_entries(ev)[j as int],
                rename_lua,
                remove_first,
            ));
            assert(paths_of_entries(ev)[j as int] == ev[j as int].components);
        }
        let entry = TreeEntry {
            components: comps,
            is_dir: members[j].is_dir,
            data: members[j].data.clone(),
        };
        proof {
            assert(entry@ =~= (TreeEntryView {
                components: fix_path_spec(ev[j as int].components, rename_lua, remove_first),
                is_dir: ev[j as int].is_dir,
                data: ev[j as int].data,
            }));
        }
        out.push(entry);
        j += 1;
    }
    proof {
        assert(out@.map_values(|e: TreeEntry| e@) =~= planned_entries_spec(ev));
    }
    out
}

} // verus!
