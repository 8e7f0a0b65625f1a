use vstd::prelude::*;
use crate::text::{ends_with, starts_with, str_starts_with, substring};

verus! {

/// Why the command line was refused.
#[derive(Debug, Clone, Copy, PartialEq, Eq, Structural)]
pub enum ArgsError {
    /// No project directory was given.
    TooFew,
    /// The path given is not a directory.
    NotDir,
}

/// The scene, asset and prefab files of a project.
#[derive(Debug, Clone, PartialEq)]
pub struct ProjectFiles {
    pub base_path: String,
    pub scenes: Vec<String>,
    pub assets: Vec<String>,
    pub prefabs: Vec<String>,
}

pub open spec fn paths_model(v: Seq<String>) -> Seq<Seq<char>> {
    v.map_values(|s: String| s@)
}

/// Index of the last `c` in `s`.
pub open spec fn rfind_char(s: Seq<char>, c: char) -> Option<nat>
    decreases s.len(),
{
    if s.len() == 0 {
        None
    } else if s.last() == c {
        Some((s.len() - 1) as nat)
    } else {
        rfind_char(s.drop_last(), c)
    }
}

pub proof fn lemma_rfind_char(s: Seq<char>, c: char)
    ensures
        rfind_char(s, c) matches Some(i) ==> i < s.len(),
    decreases s.len(),
{
    if s.len() > 0 && s.last() != c {
        lemma_rfind_char(s.drop_last(), c);
    }
}

/// The last component of a `/`-separated path.
pub open spec fn file_name(p: Seq<char>) -> Seq<char> {
    match rfind_char(p, '/') {
        Some(i) => p.skip(i + 1int),
        None => p,
    }
}

/// The extension of a path: what follows the last `.` of its file name, where that dot is
/// not the name's first character.
pub open spec fn extension_of(p: Seq<char>) -> Option<Seq<char>> {
    let n = file_name(p);
    match rfind_char(n, '.') {
        Some(i) => if i > 0 {
            Some(n.skip(i + 1int))
        } else {
            None
        },
        None => None,
    }
}

/// The paths of `ps` whose extension is `ext`, in order.
pub open spec fn with_extension(ps: Seq<Seq<char>>, ext: Seq<char>) -> Seq<Seq<char>>
    decreases ps.len(),
{
    if ps.len() == 0 {
        Seq::empty()
    } else {
        let rest = with_extension(ps.drop_last(), ext);
        if extension_of(ps.last()) == Some(ext) {
            rest.push(ps.last())
        } else {
            rest
        }
    }
}

fn rfind_char_exec(s: &str, c: char) -> (r: Option<usize>)
    ensures
        match rfind_char(s@, c) {
            Some(i) => r matches Some(j) && j as nat == i,
            None => r is None,
        },
{
    let n = s.unicode_len();
    let mut j = n;
    assert(s@.take(j as int) =~= s@);
    while j > 0
        invariant
            n == s@.len(),
            j <= n,
            rfind_char(s@, c) == rfind_char(s@.take(j as int), c),
        decreases j,
    {
        assert(s@.take(j as int).drop_last() =~= s@.take(j - 1));
        if s.get_char(j - 1) == c {
            return Some(j - 1);
        }
        j = j - 1;
    }
    None
}

/// The extension of a path, as `Path::extension` gives it for `/`-separated paths.
pub fn file_extension(p: &str) -> (r: Option<&str>)
    ensures
        match extension_of(p@) {
            Some(e) => r matches Some(x) && x@ == e,
            None => r is None,
        },
{
    let n = p.unicode_len();
    proof {
        lemma_rfind_char(p@, '/');
    }
    let name = match rfind_char_exec(p, '/') {
        Some(i) => p.substring_char(i + 1, n),
        None => p,
    };
    proof {
        lemma_rfind_char(name@, '.');
    }
    match rfind_char_exec(name, '.') {
        Some(i) => {
            if i > 0 {
                Some(name.substring_char(i + 1, name.unicode_len()))
            } else {
                None
            }
        },
        None => None,
    }
}

impl ProjectFiles {
    /// An empty project rooted at `base_path`.
    pub fn new(base_path: &str) -> (r: ProjectFiles)
        ensures
            r.base_path@ == base_path@,
            r.scenes@.len() == 0,
            r.assets@.len() == 0,
            r.prefabs@.len() == 0,
    {
        ProjectFiles {
            base_path: base_path.to_string(),
            scenes: Vec::new(),
            assets: Vec::new(),
            prefabs: Vec::new(),
        }
    }

    /// Moves the files of `other` to the end of this project's lists.
    pub fn append(&mut self, other: &mut ProjectFiles)
        ensures
            final(self).base_path == old(self).base_path,
            final(self).scenes@ == old(self).scenes@ + old(other).scenes@,
            final(self).assets@ == old(self).assets@ + old(other).assets@,
            final(self).prefabs@ == old(self).prefabs@ + old(other).prefabs@,
            final(other).base_path == old(other).base_path,
            final(other).scenes@.len() == 0,
            final(other).assets@.len() == 0,
            final(other).prefabs@.len() == 0,
    {
        self.scenes.append(&mut other.scenes);
        self.assets.append(&mut other.assets);
        self.prefabs.append(&mut other.prefabs);
    }

    /// Whether the project has no file.
    pub fn is_empty(&self) -> (r: bool)
        ensures
            r == (self.scenes@.len() == 0 && self.assets@.len() == 0 && self.prefabs@.len() == 0),
    {
        self.scenes.is_empty() && self.assets.is_empty() && self.prefabs.is_empty()
    }
}

/// Sorts the files found under `base_path` into scenes (`.unity`), assets (`.asset`) and
/// prefabs (`.prefab`), keeping their order; files of other extensions are left out.
pub fn find_project_files(base_path: &str, files: &Vec<String>) -> (r: ProjectFiles)
    ensures
        r.base_path@ == base_path@,
        paths_model(r.scenes@) == with_extension(paths_model(files@), "unity"@),
        paths_model(r.assets@) == with_extension(paths_model(files@), "asset"@),
        paths_model(r.prefabs@) == with_extension(paths_model(files@), "prefab"@),
{
    let mut out = ProjectFiles::new(base_path);
    let ghost fs = paths_model(files@);
    let mut i: usize = 0;
    while i < files.len()
        invariant
            fs == paths_model(files@),
            i <= files@.len(),
            out.base_path@ == base_path@,
            paths_model(out.scenes@) == with_extension(fs.take(i as int), "unity"@),
            paths_model(out.assets@) == with_extension(fs.take(i as int), "asset"@),
            paths_model(out.prefabs@) == with_extension(fs.take(i as int), "prefab"@),
        decreases files@.len() - i,
    {
        assert(fs.take(i + 1int).drop_last() =~= fs.take(i as int));
        assert(fs.take(i + 1int).last() == files@[i as int]@);
        let p = &files[i];
        proof {
            reveal_strlit("unity");
            reveal_strlit("asset");
            reveal_strlit("prefab");
            assert("unity"@ != "asset"@ && "unity"@ != "prefab"@ && "asset"@ != "prefab"@) by {
                assert("unity"@[0] != "asset"@[0]);
                assert("unity"@.len() != "prefab"@.len());
                assert("asset"@.len() != "prefab"@.len());
            }
        }
        match file_extension(p.as_str()) {
            Some(e) => {
                if crate::query::str_eq(e, "unity") {
                    let ghost before = out.scenes@;
                    out.scenes.push(p.clone());
                    assert(paths_model(out.scenes@) =~= paths_model(before).push(p@));
                } else if crate::query::str_eq(e, "asset") {
                    let ghost before = out.assets@;
                    out.assets.push(p.clone());
                    assert(paths_model(out.assets@) =~= paths_model(before).push(p@));
                } else if crate::query::str_eq(e, "prefab") {
                    let ghost before = out.prefabs@;
                    out.prefabs.push(p.clone());
                    assert(paths_model(out.prefabs@) =~= paths_model(before).push(p@));
                }
            },
            None => {},
        }
        i = i + 1;
    }
    assert(fs.take(i as int) =~= fs);
    out
}

/// Whether `base` is a leading run of whole components of `full`.
pub open spec fn is_path_prefix(full: Seq<char>, base: Seq<char>) -> bool {
    &&& starts_with(full, base)
    &&& (base.len() == 0 || full.len() == base.len() || ends_with(base, seq!['/'])
        || full[base.len() as int] == '/')
}

/// `full` relative to `base`: what follows `base` and its separator. Against an empty
/// base the path stays whole, a leading `/` included.
pub open spec fn relative_part(full: Seq<char>, base: Seq<char>) -> Seq<char> {
    let rest = full.skip(base.len() as int);
    if base.len() > 0 && rest.len() > 0 && rest[0] == '/' {
        rest.drop_first()
    } else {
        rest
    }
}

/// The path of `full` relative to `base`, or an error where `base` does not lead it.
pub fn path_to_relative(full: &str, base: &str) -> (r: Result<String, String>)
    ensures
        is_path_prefix(full@, base@) ==> (r matches Ok(x) && x@ == relative_part(full@, base@)),
        !is_path_prefix(full@, base@) ==> r is Err,
{
    let n = full.unicode_len();
    let m = base.unicode_len();
    if !str_starts_with(full, base) {
        return Err("prefix not found".to_string());
    }
    let boundary = m == 0 || n == m || base.get_char(m - 1) == '/' || full.get_char(m) == '/';
    assert(boundary == is_path_prefix(full@, base@)) by {
        if m > 0 {
            if ends_with(base@, seq!['/']) {
                assert(base@.skip(m - 1)[0] == base@[m - 1]);
            }
            if base@[m - 1] == '/' {
                assert(base@.skip(m - 1) =~= seq!['/']);
            }
        }
    }
    if !boundary {
        return Err("prefix not found".to_string());
    }
    if m > 0 && m < n && full.get_char(m) == '/' {
        Ok(substring(full, m + 1, n))
    } else {
        Ok(substring(full, m, n))
    }
}

/// `relative` joined onto `base`: `relative` itself where it is absolute, else `base`,
/// a separator where `base` is not empty and lacks one at its end, and `relative`.
pub open spec fn joined(relative: Seq<char>, base: Seq<char>) -> Seq<char> {
    if starts_with(relative, seq!['/']) {
        relative
    } else if base.len() == 0 || ends_with(base, seq!['/']) {
        base + relative
    } else {
        base + seq!['/'] + relative
    }
}

/// No separator follows another.
pub open spec fn single_separators(p: Seq<char>) -> bool {
    forall|i: int| 0 <= i < p.len() - 1 ==> !(#[trigger] p[i] == '/' && p[i + 1] == '/')
}

/// A path taken relative to a base that leads it, then joined back onto that base, is the
/// path again, where it is longer than the base and has no doubled separator.
pub proof fn lemma_relative_then_absolute(full: Seq<char>, base: Seq<char>)
    requires
        is_path_prefix(full, base),
        full.len() > base.len(),
        single_separators(full),
    ensures
        joined(relative_part(full, base), base) == full,
{
    let m = base.len() as int;
    let rest = full.skip(m);
    assert(full.take(m) =~= base);
    assert(full =~= base + rest);
    let rel = relative_part(full, base);
    if m == 0 {
        assert(rel == full);
        if !starts_with(rel, seq!['/']) {
            assert(base + rel =~= full);
        }
    } else if ends_with(base, seq!['/']) {
        assert(base.skip(m - 1)[0] == base[m - 1]);
        assert(full[m - 1] == '/');
        assert(rest[0] == full[m]);
        assert(rest[0] != '/');
        assert(rel == rest);
        if starts_with(rel, seq!['/']) {
            assert(rel.take(1)[0] == rel[0]);
        }
    } else {
        assert(rest[0] == '/');
        let r1 = rest.drop_first();
        assert(rel == r1);
        if r1.len() > 0 {
            assert(full[m] == '/' && r1[0] == full[m + 1]);
            assert(r1[0] != '/');
            assert(!starts_with(r1, seq!['/'])) by {
                assert(r1.take(1)[0] == r1[0]);
            }
        } else {
            assert(!starts_with(r1, seq!['/']));
        }
        assert(base + seq!['/'] + r1 =~= full);
    }
}

/// `relative` joined onto `base`, as [`joined`] says.
pub fn path_to_absolute(relative: &str, base: &str) -> (r: String)
    ensures
        r@ == joined(relative@, base@),
{
    if crate::text::str_starts_with_char(relative, '/') {
        return relative.to_string();
    }
    let mut out = base.to_string();
    if base.unicode_len() > 0 && !crate::text::str_ends_with_char(base, '/') {
        proof {
            reveal_strlit("/");
        }
        out.append("/");
    }
    out.append(relative);
    out
}

} // verus!
