use vstd::prelude::*;
use vstd::string::StrSliceExecFns;

use crate::flake_url::pkg_name_of;
use vstd::string::StringExecFns;

verus! {

/// Unicode whitespace, the code points `str::trim` strips: the ASCII
/// whitespace controls and space, next line, no-break space, ogham space
/// mark, the en-quad .. hair-space range, the line and paragraph
/// separators, narrow no-break space, medium mathematical space, and
/// ideographic space.
pub open spec fn is_space_char(c: char) -> bool {
    ('\u{9}' <= c && c <= '\u{d}') || c == ' ' || c == '\u{85}' || c == '\u{a0}' || c
        == '\u{1680}' || ('\u{2000}' <= c && c <= '\u{200a}') || c == '\u{2028}' || c == '\u{2029}'
        || c == '\u{202f}' || c == '\u{205f}' || c == '\u{3000}'
}

/// `s` without its leading whitespace.
pub open spec fn trim_front_chars(s: Seq<char>) -> Seq<char>
    decreases s.len(),
{
    if s.len() > 0 && is_space_char(s[0]) {
        trim_front_chars(s.subrange(1, s.len() as int))
    } else {
        s
    }
}

/// `s` without its trailing whitespace.
pub open spec fn trim_back_chars(s: Seq<char>) -> Seq<char>
    decreases s.len(),
{
    if s.len() > 0 && is_space_char(s[s.len() - 1]) {
        trim_back_chars(s.subrange(0, s.len() - 1))
    } else {
        s
    }
}

/// `s` without its trailing semicolons.
pub open spec fn strip_semis(s: Seq<char>) -> Seq<char>
    decreases s.len(),
{
    if s.len() > 0 && s[s.len() - 1] == ';' {
        strip_semis(s.subrange(0, s.len() - 1))
    } else {
        s
    }
}

/// A hook command as `append_hook` normalises it: trimmed of whitespace,
/// then of trailing semicolons.
pub open spec fn hook_norm(s: Seq<char>) -> Seq<char> {
    strip_semis(trim_back_chars(trim_front_chars(s)))
}

proof fn lemma_trim_front_chars_at(s: Seq<char>, i: int)
    requires
        0 <= i <= s.len(),
        forall|k: int| 0 <= k < i ==> is_space_char(s[k]),
        i == s.len() || !is_space_char(s[i]),
    ensures
        trim_front_chars(s) == s.subrange(i, s.len() as int),
    decreases i,
{
    if i == 0 {
        assert(s.subrange(0, s.len() as int) =~= s);
    } else {
        let t = s.subrange(1, s.len() as int);
        lemma_trim_front_chars_at(t, i - 1);
        assert(t.subrange(i - 1, t.len() as int) =~= s.subrange(i, s.len() as int));
    }
}

proof fn lemma_trim_back_chars_at(s: Seq<char>, j: int)
    requires
        0 <= j <= s.len(),
        forall|k: int| j <= k < s.len() ==> is_space_char(s[k]),
        j == 0 || !is_space_char(s[j - 1]),
    ensures
        trim_back_chars(s) == s.subrange(0, j),
    decreases s.len() - j,
{
    if j == s.len() {
        if s.len() > 0 && is_space_char(s[s.len() - 1]) {
            let t = s.subrange(0, s.len() - 1);
            lemma_trim_back_chars_at(t, j - 1);
            assert(t.subrange(0, j - 1) =~= s.subrange(0, j - 1));
        } else {
            assert(s.subrange(0, j) =~= s);
        }
    } else {
        if s.len() > 0 && is_space_char(s[s.len() - 1]) {
            let t = s.subrange(0, s.len() - 1);
            lemma_trim_back_chars_at(t, j);
            assert(t.subrange(0, j) =~= s.subrange(0, j));
        }
    }
}

proof fn lemma_strip_semis_at(s: Seq<char>, j: int)
    requires
        0 <= j <= s.len(),
        forall|k: int| j <= k < s.len() ==> s[k] == ';',
        j == 0 || s[j - 1] != ';',
    ensures
        strip_semis(s) == s.subrange(0, j),
    decreases s.len() - j,
{
    if j == s.len() {
        if s.len() > 0 && s[s.len() - 1] == ';' {
            let t = s.subrange(0, s.len() - 1);
            lemma_strip_semis_at(t, j - 1);
            assert(t.subrange(0, j - 1) =~= s.subrange(0, j - 1));
        } else {
            assert(s.subrange(0, j) =~= s);
        }
    } else {
        if s.len() > 0 && s[s.len() - 1] == ';' {
            let t = s.subrange(0, s.len() - 1);
            lemma_strip_semis_at(t, j);
            assert(t.subrange(0, j) =~= s.subrange(0, j));
        }
    }
}

/// The package-name views of a list of names.
pub open spec fn pkg_views(pkgs: Seq<String>) -> Seq<Seq<char>> {
    pkgs.map_values(|p: String| p@)
}

/// No name listed twice.
pub open spec fn pkgs_unique(pkgs: Seq<Seq<char>>) -> bool {
    forall|i: int, j: int| 0 <= i < j < pkgs.len() ==> #[trigger] pkgs[i] != #[trigger] pkgs[j]
}

/// One name added to a package list: kept once, appended at the end when
/// new, never reordered.
pub open spec fn insert_pkg(pkgs: Seq<Seq<char>>, p: Seq<char>) -> Seq<Seq<char>> {
    if pkgs.contains(p) {
        pkgs
    } else {
        pkgs.push(p)
    }
}

/// Many names added, left to right.
pub open spec fn insert_pkgs(pkgs: Seq<Seq<char>>, ps: Seq<Seq<char>>) -> Seq<Seq<char>>
    decreases ps.len(),
{
    if ps.len() == 0 {
        pkgs
    } else {
        insert_pkgs(insert_pkg(pkgs, ps[0]), ps.subrange(1, ps.len() as int))
    }
}

/// Adding names one by one from the left is adding them all.
pub proof fn lemma_insert_pkgs_snoc(pkgs: Seq<Seq<char>>, ps: Seq<Seq<char>>, p: Seq<char>)
    ensures
        insert_pkgs(pkgs, ps.push(p)) == insert_pkg(insert_pkgs(pkgs, ps), p),
    decreases ps.len(),
{
    reveal_with_fuel(insert_pkgs, 3);
    if ps.len() == 0 {
        assert(ps.push(p)[0] == p);
        assert(ps.push(p).subrange(1, 1) =~= Seq::<Seq<char>>::empty());
    } else {
        assert(ps.push(p)[0] == ps[0]);
        assert(ps.push(p).subrange(1, (ps.len() + 1) as int) =~= ps.subrange(
            1,
            ps.len() as int,
        ).push(p));
        lemma_insert_pkgs_snoc(insert_pkg(pkgs, ps[0]), ps.subrange(1, ps.len() as int), p);
    }
}

/// A list without duplicates stays without duplicates under insertion.
pub proof fn lemma_insert_pkg_unique(pkgs: Seq<Seq<char>>, p: Seq<char>)
    requires
        pkgs_unique(pkgs),
    ensures
        pkgs_unique(insert_pkg(pkgs, p)),
{
    if !pkgs.contains(p) {
        assert forall|i: int, j: int|
            0 <= i < j < pkgs.push(p).len() implies #[trigger] pkgs.push(p)[i]
            != #[trigger] pkgs.push(p)[j] by {
            if j == pkgs.len() {
                assert(pkgs[i] == pkgs.push(p)[i]);
            }
        }
    }
}

/// The devshell configuration: package names (unique, in order of first
/// insertion), an optional shell hook, an optional purity flag.
#[derive(Debug, Clone)]
pub struct DevShellConfig {
    pub packages: Vec<String>,
    pub shell_hook: Option<String>,
    pub pure: Option<bool>,
}

impl Default for DevShellConfig {
    /// The empty configuration.
    fn default() -> (r: Self)
        ensures
            r.packages@.len() == 0,
            r.shell_hook is None,
            r.pure is None,
    {
        DevShellConfig { packages: Vec::new(), shell_hook: None, pure: None }
    }
}

impl DevShellConfig {
    /// Adds one package name unless it is already present; order and
    /// everything else are kept.
    pub fn add_package(&mut self, p: String)
        ensures
            pkg_views(final(self).packages@) == insert_pkg(pkg_views(old(self).packages@), p@),
            old(self).packages@.len() <= final(self).packages@.len() <= old(self).packages@.len()
                + 1,
            final(self).shell_hook == old(self).shell_hook,
            final(self).pure == old(self).pure,
    {
        let mut i: usize = 0;
        while i < self.packages.len()
            invariant
                i <= self.packages.len(),
                *self == *old(self),
                forall|k: int| 0 <= k < i ==> old(self).packages@[k]@ != p@,
            decreases self.packages.len() - i,
        {
            if self.packages[i] == p {
                proof {
                    assert(pkg_views(self.packages@)[i as int] == p@);
                    assert(pkg_views(self.packages@).contains(p@));
                }
                return ;
            }
            i += 1;
        }
        proof {
            assert forall|k: int| 0 <= k < pkg_views(self.packages@).len() implies #[trigger] pkg_views(
                self.packages@,
            )[k] != p@ by {
                assert(pkg_views(self.packages@)[k] == self.packages@[k]@);
            }
            assert(!pkg_views(self.packages@).contains(p@));
        }
        let ghost before = self.packages@;
        self.packages.push(p);
        proof {
            assert(pkg_views(before.push(p)) =~= pkg_views(before).push(p@));
        }
    }

    /// Adds many package names, left to right; returns how many were new.
    pub fn add_packages(&mut self, ps: &Vec<String>) -> (added: usize)
        ensures
            pkg_views(final(self).packages@) == insert_pkgs(
                pkg_views(old(self).packages@),
                pkg_views(ps@),
            ),
            added == final(self).packages@.len() - old(self).packages@.len(),
            final(self).shell_hook == old(self).shell_hook,
            final(self).pure == old(self).pure,
    {
        let before: usize = self.packages.len();
        let mut i: usize = 0;
        while i < ps.len()
            invariant
                i <= ps.len(),
                before <= self.packages@.len(),
                before == old(self).packages@.len(),
                pkg_views(self.packages@) == insert_pkgs(
                    pkg_views(old(self).packages@),
                    pkg_views(ps@).take(i as int),
                ),
                self.shell_hook == old(self).shell_hook,
                self.pure == old(self).pure,
            decreases ps.len() - i,
        {
            proof {
                assert(pkg_views(ps@).take(i + 1 as int) =~= pkg_views(ps@).take(i as int).push(
                    ps@[i as int]@,
                ));
                assert(pkg_views(ps@)[i as int] == ps@[i as int]@);
                lemma_insert_pkgs_snoc(
                    pkg_views(old(self).packages@),
                    pkg_views(ps@).take(i as int),
                    ps@[i as int]@,
                );
            }
            self.add_package(ps[i].clone());
            i += 1;
        }
        proof {
            assert(pkg_views(ps@).take(ps@.len() as int) =~= pkg_views(ps@));
        }
        self.packages.len() - before
    }

    /// Appends a hook command: the new text is trimmed and stripped of
    /// trailing semicolons; an empty result changes nothing; otherwise it
    /// is joined to any existing hook with `";\n"`, or becomes the hook.
    pub fn append_hook(&mut self, new_hook: &str)
        ensures
            final(self).packages == old(self).packages,
            final(self).pure == old(self).pure,
            ({
                let h = hook_norm(new_hook@);
                if h.len() == 0 {
                    final(self).shell_hook == old(self).shell_hook
                } else {
                    match old(self).shell_hook {
                        None => match final(self).shell_hook {
                            Some(s) => s@ == h,
                            None => false,
                        },
                        Some(e) => match final(self).shell_hook {
                            Some(s) => s@ == e@ + ";\n"@ + h,
                            None => false,
                        },
                    }
                }
            }),
    {
        let n: usize = new_hook.unicode_len();
        let mut start: usize = 0;
        while start < n && is_space_char_x(new_hook.get_char(start))
            invariant
                start <= n,
                n == new_hook@.len(),
                forall|k: int| 0 <= k < start ==> is_space_char(new_hook@[k]),
            decreases n - start,
        {
            start += 1;
        }
        let mut end: usize = n;
        while end > start && is_space_char_x(new_hook.get_char(end - 1))
            invariant
                start <= end <= n,
                n == new_hook@.len(),
                forall|k: int| end <= k < n ==> is_space_char(new_hook@[k]),
            decreases end,
        {
            end -= 1;
        }
        let mut end2: usize = end;
        while end2 > start && new_hook.get_char(end2 - 1) == ';'
            invariant
                start <= end2 <= end <= n,
                n == new_hook@.len(),
                forall|k: int| end2 <= k < end ==> new_hook@[k] == ';',
            decreases end2,
        {
            end2 -= 1;
        }
        proof {
            lemma_trim_front_chars_at(new_hook@, start as int);
            let t1 = new_hook@.subrange(start as int, n as int);
            lemma_trim_back_chars_at(t1, end - start);
            assert(t1.subrange(0, end - start) =~= new_hook@.subrange(start as int, end as int));
            let t2 = new_hook@.subrange(start as int, end as int);
            lemma_strip_semis_at(t2, end2 - start);
            assert(t2.subrange(0, end2 - start) =~= new_hook@.subrange(
                start as int,
                end2 as int,
            ));
        }
        if end2 == start {
            return ;
        }
        let piece: &str = new_hook.substring_char(start, end2);
        match &self.shell_hook {
            Some(e) => {
                let mut joined: String = e.clone();
                joined.append(";\n");
                joined.append(piece);
                self.shell_hook = Some(joined);
            },
            None => {
                self.shell_hook = Some(String::from_str(piece));
            },
        }
    }
}

/// Whether a character is Unicode whitespace, as `is_space_char` lists it.
pub fn is_space_char_x(c: char) -> (r: bool)
    ensures
        r == is_space_char(c),
{
    ('\u{9}' <= c && c <= '\u{d}') || c == ' ' || c == '\u{85}' || c == '\u{a0}' || c
        == '\u{1680}' || ('\u{2000}' <= c && c <= '\u{200a}') || c == '\u{2028}' || c == '\u{2029}'
        || c == '\u{202f}' || c == '\u{205f}' || c == '\u{3000}'
}

/// An ASCII capital letter lowered; every other character unchanged.
pub open spec fn lower_char(c: char) -> char {
    if 'A' <= c && c <= 'Z' {
        (((c as u32) + 32) as u8) as char
    } else {
        c
    }
}

/// `s` with its ASCII capitals lowered.
pub open spec fn lower_seq(s: Seq<char>) -> Seq<char> {
    s.map_values(|c: char| lower_char(c))
}

/// The language templates the generator knows, by lowered name.
pub open spec fn known_lang(l: Seq<char>) -> bool {
    l == "cpp"@ || l == "c++"@ || l == "rust"@ || l == "python"@
}

/// The packages each known language template brings in.
pub open spec fn lang_packages_spec(l: Seq<char>) -> Seq<Seq<char>> {
    if l == "cpp"@ || l == "c++"@ {
        seq!["clang"@, "cmake"@, "gdb"@]
    } else if l == "rust"@ {
        seq!["rustc"@, "cargo"@, "rust-analyzer"@]
    } else if l == "python"@ {
        seq!["python3"@]
    } else {
        Seq::empty()
    }
}

fn lower_char_x(c: char) -> (r: char)
    ensures
        r == lower_char(c),
{
    if 'A' <= c && c <= 'Z' {
        (((c as u32) + 32) as u8) as char
    } else {
        c
    }
}

/// Case-insensitive (ASCII) string comparison.
fn str_ieq(a: &str, b: &str) -> (r: bool)
    ensures
        r == (lower_seq(a@) == lower_seq(b@)),
{
    let na: usize = a.unicode_len();
    let nb: usize = b.unicode_len();
    if na != nb {
        proof {
            assert(lower_seq(a@).len() != lower_seq(b@).len());
        }
        return false;
    }
    let mut i: usize = 0;
    while i < na
        invariant
            i <= na,
            na == a@.len() == b@.len(),
            forall|k: int| 0 <= k < i ==> lower_seq(a@)[k] == lower_seq(b@)[k],
        decreases na - i,
    {
        if lower_char_x(a.get_char(i)) != lower_char_x(b.get_char(i)) {
            proof {
                assert(lower_seq(a@)[i as int] != lower_seq(b@)[i as int]);
            }
            return false;
        }
        i += 1;
    }
    proof {
        assert(lower_seq(a@) =~= lower_seq(b@));
    }
    true
}

/// The packages a language template brings in: three for C++, three for
/// Rust, one for Python, nothing for a language the generator does not
/// know. The name is matched without regard to ASCII case.
pub fn language_packages(lang: &str) -> (r: Option<Vec<String>>)
    ensures
        ({
            let l = lower_seq(lang@);
            match r {
                Some(v) => known_lang(l) && pkg_views(v@) == lang_packages_spec(l),
                None => !known_lang(l),
            }
        }),
{
    proof {
        reveal_strlit("cpp");
        reveal_strlit("c++");
        reveal_strlit("rust");
        reveal_strlit("python");
        assert(lower_seq("cpp"@) =~= "cpp"@);
        assert(lower_seq("c++"@) =~= "c++"@);
        assert(lower_seq("rust"@) =~= "rust"@);
        assert(lower_seq("python"@) =~= "python"@);
    }
    if str_ieq(lang, "cpp") || str_ieq(lang, "c++") {
        let mut v: Vec<String> = Vec::new();
        v.push(String::from_str("clang"));
        v.push(String::from_str("cmake"));
        v.push(String::from_str("gdb"));
        proof {
            assert(pkg_views(v@) =~= seq!["clang"@, "cmake"@, "gdb"@]);
        }
        Some(v)
    } else if str_ieq(lang, "rust") {
        let mut v: Vec<String> = Vec::new();
        v.push(String::from_str("rustc"));
        v.push(String::from_str("cargo"));
        v.push(String::from_str("rust-analyzer"));
        proof {
            assert(pkg_views(v@) =~= seq!["rustc"@, "cargo"@, "rust-analyzer"@]);
        }
        Some(v)
    } else if str_ieq(lang, "python") {
        let mut v: Vec<String> = Vec::new();
        v.push(String::from_str("python3"));
        proof {
            assert(pkg_views(v@) =~= seq!["python3"@]);
        }
        Some(v)
    } else {
        None
    }
}

/// The language packages an optional language choice brings in.
pub open spec fn opt_lang_packages(lang: Option<&String>) -> Seq<Seq<char>> {
    match lang {
        Some(l) => lang_packages_spec(lower_seq(l@)),
        None => Seq::empty(),
    }
}

/// Builds the configuration for a fresh shell: the language template's
/// packages, then the user's packages, then one package per flake input,
/// each added once in that order; then the hook and the purity flag. The
/// second result says whether a language was named but not known.
pub fn build_init_config(
    lang: Option<&String>,
    packages: &Vec<String>,
    inputs: &Vec<String>,
    shell_hook: Option<&String>,
    isolated: bool,
) -> (r: (DevShellConfig, bool))
    ensures
        pkg_views(r.0.packages@) == insert_pkgs(
            insert_pkgs(
                insert_pkgs(Seq::empty(), opt_lang_packages(lang)),
                pkg_views(packages@),
            ),
            inputs@.map_values(|u: String| pkg_name_of(u@)),
        ),
        r.1 == match lang {
            Some(l) => !known_lang(lower_seq(l@)),
            None => false,
        },
        r.0.pure == if isolated {
            Option::Some(true)
        } else {
            Option::<bool>::None
        },
        match shell_hook {
            Some(h) => if hook_norm(h@).len() == 0 {
                r.0.shell_hook is None
            } else {
                match r.0.shell_hook {
                    Some(s) => s@ == hook_norm(h@),
                    None => false,
                }
            },
            None => r.0.shell_hook is None,
        },
{
    let mut cfg = DevShellConfig { packages: Vec::new(), shell_hook: None, pure: None };
    let mut unknown: bool = false;
    proof {
        assert(pkg_views(cfg.packages@) =~= Seq::<Seq<char>>::empty());
    }
    match lang {
        Some(l) => {
            match language_packages(l.as_str()) {
                Some(v) => {
                    let _n = cfg.add_packages(&v);
                },
                None => {
                    unknown = true;
                    proof {
                        reveal_with_fuel(insert_pkgs, 1);
                        assert(insert_pkgs(Seq::empty(), opt_lang_packages(lang))
                            =~= Seq::<Seq<char>>::empty());
                    }
                },
            }
        },
        None => {
            proof {
                reveal_with_fuel(insert_pkgs, 1);
                assert(insert_pkgs(Seq::empty(), opt_lang_packages(lang))
                    =~= Seq::<Seq<char>>::empty());
            }
        },
    }
    let ghost stage1 = insert_pkgs(Seq::empty(), opt_lang_packages(lang));
    let _n = cfg.add_packages(packages);
    let ghost stage2 = insert_pkgs(stage1, pkg_views(packages@));
    let ghost in_views = inputs@.map_values(|u: String| pkg_name_of(u@));
    let mut i: usize = 0;
    while i < inputs.len()
        invariant
            i <= inputs.len(),
            in_views == inputs@.map_values(|u: String| pkg_name_of(u@)),
            pkg_views(cfg.packages@) == insert_pkgs(stage2, in_views.take(i as int)),
            cfg.shell_hook is None,
            cfg.pure is None,
        decreases inputs.len() - i,
    {
        proof {
            assert(in_views.take(i + 1 as int) =~= in_views.take(i as int).push(
                in_views[i as int],
            ));
            assert(in_views[i as int] == pkg_name_of(inputs@[i as int]@));
            lemma_insert_pkgs_snoc(stage2, in_views.take(i as int), in_views[i as int]);
        }
        let u: &String = &inputs[i];
        let p = crate::flake_url::parse_input_to_pkg_string(u.as_str());
        cfg.add_package(p);
        i += 1;
    }
    proof {
        assert(in_views.take(inputs@.len() as int) =~= in_views);
    }
    match shell_hook {
        Some(h) => cfg.append_hook(h.as_str()),
        None => {},
    }
    if isolated {
        cfg.pure = Some(true);
    }
    (cfg, unknown)
}

} // verus!
