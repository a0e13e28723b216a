//! The project record and its text renderings: the title line, the README
//! document, the compiled-artifact comment header, and the license text.

use vstd::prelude::*;
use vstd::string::StringExecFns;

use crate::text::{dec_digits, join_seq, u64_to_string};

verus! {

/// A semantic version held as plain values: the three numbers and the
/// optional pre-release and build tags (empty when absent).
pub struct VersionData {
    pub major: u64,
    pub minor: u64,
    pub patch: u64,
    pub pre: String,
    pub build: String,
}

/// How a version is written: `major.minor.patch`, then `-pre` and `+build`
/// when present.
pub open spec fn version_text(v: VersionData) -> Seq<char> {
    dec_digits(v.major as nat) + "."@ + dec_digits(v.minor as nat) + "."@ + dec_digits(
        v.patch as nat,
    ) + (if v.pre@.len() > 0 {
        "-"@ + v.pre@
    } else {
        Seq::empty()
    }) + (if v.build@.len() > 0 {
        "+"@ + v.build@
    } else {
        Seq::empty()
    })
}

impl VersionData {
    /// A plain numeric version.
    pub fn new(major: u64, minor: u64, patch: u64) -> (r: VersionData)
        ensures
            r.major == major && r.minor == minor && r.patch == patch,
            r.pre@ == Seq::<char>::empty() && r.build@ == Seq::<char>::empty(),
    {
        VersionData { major, minor, patch, pre: String::new(), build: String::new() }
    }

    /// Writes the version out.
    pub fn render(&self) -> (r: String)
        ensures
            r@ == version_text(*self),
    {
        let mut out = u64_to_string(self.major);
        out.append(".");
        let minor = u64_to_string(self.minor);
        out.append(minor.as_str());
        out.append(".");
        let patch = u64_to_string(self.patch);
        out.append(patch.as_str());
        if self.pre.as_str().unicode_len() > 0 {
            out.append("-");
            out.append(self.pre.as_str());
        }
        if self.build.as_str().unicode_len() > 0 {
            out.append("+");
            out.append(self.build.as_str());
        }
        proof {
            assert(out@ =~= version_text(*self));
        }
        out
    }
}

/// The project's own metadata, as the workspace marker directory stores it.
pub struct ProjectData {
    pub name: String,
    pub description: String,
    pub authors: Vec<String>,
    pub version: VersionData,
    pub license: String,
    pub homepage: Option<String>,
    pub repository: Option<String>,
    pub dependencies: Option<Vec<String>>,
}

/// Relies on `titlecase::titlecase`: the result depends on the input text
/// alone.
pub uninterp spec fn titled(s: Seq<char>) -> Seq<char>;

/// Relies on `titlecase::titlecase` to render a type heading.
#[verifier::external_body]
fn titlecase_str(s: &str) -> (r: String)
    ensures
        r@ == titled(s@),
{
    titlecase::titlecase(s)
}

/// Relies on the `license` crate: parsing an SPDX id yields that license's
/// text, a function of the id alone; an unknown id yields nothing.
pub uninterp spec fn license_text_of(id: Seq<char>) -> Option<Seq<char>>;

/// Relies on the `license` crate's id parsing and `License::text`.
#[verifier::external_body]
fn license_body(id: &str) -> (r: Option<String>)
    ensures
        r.deep_view() == license_text_of(id@),
{
    let parsed: Result<&dyn license::License, _> = id.parse();
    parsed.ok().map(|l| l.text().to_owned())
}

pub open spec fn title_view(p: ProjectData) -> Seq<char> {
    p.name@ + " v"@ + version_text(p.version)
}

pub open spec fn description_default_view(p: ProjectData) -> Seq<char> {
    if p.description@.len() == 0 {
        "No description"@
    } else {
        p.description@
    }
}

pub open spec fn authors_default_view(p: ProjectData) -> Seq<char> {
    if p.authors@.len() == 0 {
        "None"@
    } else {
        join_seq(p.authors.deep_view(), ", "@)
    }
}

pub open spec fn readme_header_view(p: ProjectData) -> Seq<char> {
    "# "@ + p.name@ + "\n\n"@ + description_default_view(p)
}

/// The fixed README sections.
pub open spec fn readme_about() -> Seq<char> {
    "## About\n\nProvide a brief explanation of your project and how it's used."@
}

pub open spec fn readme_example() -> Seq<char> {
    "## Example\n\nUse this space to demonstrate the usage of your project.\n> If the user only needs to worry about installation, consider omitting this section."@
}

pub open spec fn readme_dzp() -> Seq<char> {
    "Use [dzp](https://github.com/acikek/dzp-rs) for additional features."@
}

pub open spec fn readme_setup_view(p: ProjectData) -> Seq<char> {
    let repo = match p.repository {
        Some(u) => u@,
        None => "https://github.com/<user>/<name>"@,
    };
    "## Setup\n\nClone using git:\n```sh\ngit clone "@ + repo + "\n```\n"@ + readme_dzp()
}

/// One `### Type` section: the titlecased heading and one bullet per name.
pub open spec fn scripts_group_view(ty: Seq<char>, names: Seq<Seq<char>>) -> Seq<char> {
    "### "@ + titled(ty) + "\n\n"@ + join_seq(
        Seq::new(names.len(), |i: int| "- `"@ + names[i] + "`"@),
        "\n"@,
    )
}

pub open spec fn readme_scripts_view(types: Seq<(Seq<char>, Seq<Seq<char>>)>) -> Seq<char> {
    "## Scripts\n\n"@ + join_seq(
        Seq::new(types.len(), |g: int| scripts_group_view(types[g].0, types[g].1)),
        "\n\n"@,
    )
}

pub open spec fn readme_license_view(p: ProjectData) -> Seq<char> {
    "## License\n\n"@ + p.license@ + seq![' ', '\u{00C2}', '\u{00A9}'] + " (year) (name)"@
}

/// The whole README: header, about, setup, example, scripts and license
/// sections joined by blank lines.
pub open spec fn readme_view(p: ProjectData, types: Seq<(Seq<char>, Seq<Seq<char>>)>) -> Seq<
    char,
> {
    join_seq(
        seq![
            readme_header_view(p),
            readme_about(),
            readme_setup_view(p),
            readme_example(),
            readme_scripts_view(types),
            readme_license_view(p),
        ],
        "\n\n"@,
    )
}

pub open spec fn comment_key_view(key: Seq<char>, value: Seq<char>) -> Seq<char> {
    "#| @"@ + key + " "@ + value
}

/// The comment header a compiled artifact may carry: title, description and
/// the author and license keys.
pub open spec fn comment_header_view(p: ProjectData) -> Seq<char> {
    "#| "@ + title_view(p) + "\n#| "@ + description_default_view(p) + "\n#|\n"@
        + comment_key_view("author"@, authors_default_view(p)) + "\n"@ + comment_key_view(
        "license"@,
        p.license@,
    )
}

/// The license text: the project's SPDX id when it is known, else the MIT
/// text, else empty.
pub open spec fn license_text_view(p: ProjectData) -> Seq<char> {
    match license_text_of(p.license@) {
        Some(t) => t,
        None => match license_text_of("MIT"@) {
            Some(t) => t,
            None => Seq::empty(),
        },
    }
}

impl ProjectData {
    /// The default project record for a fresh workspace of this name.
    pub fn from_name(name: String) -> (r: ProjectData)
        ensures
            r.name == name,
            r.description@ == Seq::<char>::empty(),
            r.authors@ == Seq::<String>::empty(),
            r.version.major == 0 && r.version.minor == 1 && r.version.patch == 0,
            r.version.pre@ == Seq::<char>::empty() && r.version.build@ == Seq::<char>::empty(),
            r.license@ == "MIT"@,
            r.homepage is None && r.repository is None,
            r.dependencies matches Some(d) && d@ == Seq::<String>::empty(),
    {
        ProjectData {
            name,
            description: String::new(),
            authors: Vec::new(),
            version: VersionData::new(0, 1, 0),
            license: String::from_str("MIT"),
            homepage: None,
            repository: None,
            dependencies: Some(Vec::new()),
        }
    }

    /// The `name vX.Y.Z` title line.
    pub fn title(&self) -> (r: String)
        ensures
            r@ == title_view(*self),
    {
        let mut out = self.name.clone();
        out.append(" v");
        let v = self.version.render();
        out.append(v.as_str());
        proof {
            assert(out@ =~= title_view(*self));
        }
        out
    }

    /// The description, or a placeholder when none was given.
    pub fn description_default(&self) -> (r: String)
        ensures
            r@ == description_default_view(*self),
    {
        if self.description.as_str().unicode_len() == 0 {
            String::from_str("No description")
        } else {
            self.description.clone()
        }
    }

    /// The authors joined with commas, or a placeholder when none was given.
    pub fn authors_default(&self) -> (r: String)
        ensures
            r@ == authors_default_view(*self),
    {
        if self.authors.len() == 0 {
            String::from_str("None")
        } else {
            crate::text::join_strings(&self.authors, ", ")
        }
    }

    /// The README's opening section.
    pub fn readme_header(&self) -> (r: String)
        ensures
            r@ == readme_header_view(*self),
    {
        let mut out = String::from_str("# ");
        out.append(self.name.as_str());
        out.append("\n\n");
        let d = self.description_default();
        out.append(d.as_str());
        proof {
            assert(out@ =~= readme_header_view(*self));
        }
        out
    }

    fn readme_setup(&self) -> (r: String)
        ensures
            r@ == readme_setup_view(*self),
    {
        let mut out = String::from_str("## Setup\n\nClone using git:\n```sh\ngit clone ");
        match &self.repository {
            Some(u) => out.append(u.as_str()),
            None => out.append("https://github.com/<user>/<name>"),
        }
        out.append("\n```\n");
        out.append("Use [dzp](https://github.com/acikek/dzp-rs) for additional features.");
        proof {
            assert(out@ =~= readme_setup_view(*self));
        }
        out
    }

    /// The scripts section, one heading per type group.
    pub fn readme_scripts(&self, types: &Vec<(String, Vec<String>)>) -> (r: String)
        ensures
            r@ == readme_scripts_view(types.deep_view()),
    {
        let ghost tv = types.deep_view();
        let mut sections: Vec<String> = Vec::new();
        let ng = types.len();
        for g in 0..ng
            invariant
                ng == types@.len(),
                tv == types.deep_view(),
                tv.len() == ng,
                sections@.len() == g,
                sections.deep_view() == Seq::new(
                    g as nat,
                    |k: int| scripts_group_view(tv[k].0, tv[k].1),
                ),
        {
            proof {
                assert(tv[g as int] == types@[g as int].deep_view());
            }
            let ty = &types[g].0;
            let names = &types[g].1;
            let ghost nv = tv[g as int].1;
            let mut bullets: Vec<String> = Vec::new();
            let nn = names.len();
            for i in 0..nn
                invariant
                    nn == names@.len(),
                    nv == names.deep_view(),
                    nv.len() == nn,
                    bullets@.len() == i,
                    bullets.deep_view() == Seq::new(i as nat, |k: int| "- `"@ + nv[k] + "`"@),
            {
                proof {
                    assert(nv[i as int] == names@[i as int]@);
                }
                let mut b = String::from_str("- `");
                b.append(names[i].as_str());
                b.append("`");
                let ghost prev_dv = bullets.deep_view();
                bullets.push(b);
                proof {
                    assert forall|k: int| 0 <= k < i + 1 implies bullets.deep_view()[k] == "- `"@
                        + nv[k] + "`"@ by {
                        assert(bullets.deep_view()[k] == bullets@[k]@);
                        if k < i {
                            assert(prev_dv[k] == "- `"@ + nv[k] + "`"@);
                        }
                    }
                    assert(bullets.deep_view() =~= Seq::new(
                        (i + 1) as nat,
                        |k: int| "- `"@ + nv[k] + "`"@,
                    ));
                }
            }
            let mut section = String::from_str("### ");
            let t = titlecase_str(ty.as_str());
            section.append(t.as_str());
            section.append("\n\n");
            let joined = crate::text::join_strings(&bullets, "\n");
            section.append(joined.as_str());
            proof {
                assert(section@ =~= scripts_group_view(tv[g as int].0, tv[g as int].1));
            }
            let ghost prev_sections = sections.deep_view();
            sections.push(section);
            proof {
                assert forall|k: int| 0 <= k < g + 1 implies sections.deep_view()[k]
                    == scripts_group_view(tv[k].0, tv[k].1) by {
                    assert(sections.deep_view()[k] == sections@[k]@);
                    if k < g {
                        assert(prev_sections[k] == scripts_group_view(tv[k].0, tv[k].1));
                    }
                }
                assert(sections.deep_view() =~= Seq::new(
                    (g + 1) as nat,
                    |k: int| scripts_group_view(tv[k].0, tv[k].1),
                ));
            }
        }
        let mut out = String::from_str("## Scripts\n\n");
        let joined = crate::text::join_strings(&sections, "\n\n");
        out.append(joined.as_str());
        proof {
            assert(out@ =~= readme_scripts_view(tv));
        }
        out
    }

    /// The README's closing license section.
    pub fn readme_license(&self) -> (r: String)
        ensures
            r@ == readme_license_view(*self),
    {
        let mut out = String::from_str("## License\n\n");
        out.append(self.license.as_str());
        crate::text::push_char(&mut out, ' ');
        crate::text::push_char(&mut out, '\u{00C2}');
        crate::text::push_char(&mut out, '\u{00A9}');
        out.append(" (year) (name)");
        proof {
            assert(out@ =~= readme_license_view(*self));
        }
        out
    }

    /// The whole README document, given the grouped script types.
    pub fn readme(&self, types: &Vec<(String, Vec<String>)>) -> (r: String)
        ensures
            r@ == readme_view(*self, types.deep_view()),
    {
        let mut out = self.readme_header();
        out.append("\n\n");
        out.append("## About\n\nProvide a brief explanation of your project and how it's used.");
        out.append("\n\n");
        let setup = self.readme_setup();
        out.append(setup.as_str());
        out.append("\n\n");
        out.append(
            "## Example\n\nUse this space to demonstrate the usage of your project.\n> If the user only needs to worry about installation, consider omitting this section.",
        );
        out.append("\n\n");
        let scripts = self.readme_scripts(types);
        out.append(scripts.as_str());
        out.append("\n\n");
        let lic = self.readme_license();
        out.append(lic.as_str());
        proof {
            let sep = "\n\n"@;
            let p1 = seq![readme_header_view(*self)];
            let p2 = p1.push(readme_about());
            let p3 = p2.push(readme_setup_view(*self));
            let p4 = p3.push(readme_example());
            let p5 = p4.push(readme_scripts_view(types.deep_view()));
            let p6 = p5.push(readme_license_view(*self));
            assert(p2.drop_last() =~= p1 && p3.drop_last() =~= p2 && p4.drop_last() =~= p3
                && p5.drop_last() =~= p4 && p6.drop_last() =~= p5);
            assert(join_seq(p1, sep) == readme_header_view(*self));
            assert(join_seq(p2, sep) == join_seq(p1, sep) + sep + readme_about());
            assert(join_seq(p3, sep) == join_seq(p2, sep) + sep + readme_setup_view(*self));
            assert(join_seq(p4, sep) == join_seq(p3, sep) + sep + readme_example());
            assert(join_seq(p5, sep) == join_seq(p4, sep) + sep + readme_scripts_view(
                types.deep_view(),
            ));
            assert(join_seq(p6, sep) == join_seq(p5, sep) + sep + readme_license_view(*self));
            assert(p6 =~= seq![
                readme_header_view(*self),
                readme_about(),
                readme_setup_view(*self),
                readme_example(),
                readme_scripts_view(types.deep_view()),
                readme_license_view(*self),
            ]);
            assert(out@ =~= join_seq(p6, sep));
        }
        out
    }

    /// One `#| @key value` line of the comment header.
    pub fn comment_key(key: &str, value: String) -> (r: String)
        ensures
            r@ == comment_key_view(key@, value@),
    {
        let mut out = String::from_str("#| @");
        out.append(key);
        out.append(" ");
        out.append(value.as_str());
        proof {
            assert(out@ =~= comment_key_view(key@, value@));
        }
        out
    }

    /// The comment header that prefixes a compiled artifact.
    pub fn comment_header(&self) -> (r: String)
        ensures
            r@ == comment_header_view(*self),
    {
        let mut out = String::from_str("#| ");
        let t = self.title();
        out.append(t.as_str());
        out.append("\n#| ");
        let d = self.description_default();
        out.append(d.as_str());
        out.append("\n#|\n");
        let a = Self::comment_key("author", self.authors_default());
        out.append(a.as_str());
        out.append("\n");
        let l = Self::comment_key("license", self.license.clone());
        out.append(l.as_str());
        proof {
            assert(out@ =~= comment_header_view(*self));
        }
        out
    }

    /// The full text of the project's license, with the MIT text as the
    /// fallback for an unknown id.
    pub fn license_text(&self) -> (r: String)
        ensures
            r@ == license_text_view(*self),
    {
        match license_body(self.license.as_str()) {
            Some(t) => t,
            None => match license_body("MIT") {
                Some(t) => t,
                None => String::new(),
            },
        }
    }
}

/// The opening lines of the project listing: title, description, a blank
/// line, the author line and the license line.
pub open spec fn project_head_view(p: ProjectData) -> Seq<char> {
    title_view(p) + "\n"@ + description_default_view(p) + "\n"@ + "\n"@ + (if p.authors@.len()
        > 1 {
        "Authors: "@ + join_seq(p.authors.deep_view(), ", "@)
    } else {
        "Author: "@ + (if p.authors@.len() == 1 {
            p.authors@[0]@
        } else {
            "None"@
        })
    }) + "\n"@ + "License: "@ + p.license@ + "\n"@
}

/// The optional homepage and repository lines.
pub open spec fn project_urls_view(p: ProjectData) -> Seq<char> {
    (match p.homepage {
        Some(u) => "Homepage: "@ + u@ + "\n"@,
        None => Seq::empty(),
    }) + (match p.repository {
        Some(u) => "Repository: "@ + u@ + "\n"@,
        None => Seq::empty(),
    })
}

/// The dependency block, present only when some dependency is named.
pub open spec fn project_deps_view(p: ProjectData) -> Seq<char> {
    match p.dependencies {
        Some(deps) => if deps@.len() > 0 {
            "\nDependencies:\n"@ + join_seq(
                Seq::new(deps.deep_view().len(), |i: int| "- "@ + deps.deep_view()[i]),
                "\n"@,
            ) + "\n"@
        } else {
            Seq::empty()
        },
        None => Seq::empty(),
    }
}

/// The project listing shown by the project command, one field per line.
pub open spec fn project_text_view(p: ProjectData) -> Seq<char> {
    project_head_view(p) + project_urls_view(p) + project_deps_view(p)
}

impl ProjectData {
    /// Renders the project listing.
    #[verifier::rlimit(60)]
    pub fn print_text(&self) -> (r: String)
        ensures
            r@ == project_text_view(*self),
    {
        let mut out = self.title();
        out.append("\n");
        let d = self.description_default();
        out.append(d.as_str());
        out.append("\n");
        out.append("\n");
        if self.authors.len() > 1 {
            out.append("Authors: ");
            let joined = crate::text::join_strings(&self.authors, ", ");
            out.append(joined.as_str());
        } else {
            out.append("Author: ");
            if self.authors.len() == 1 {
                proof {
                    assert(self.authors.deep_view()[0] == self.authors@[0]@);
                }
                out.append(self.authors[0].as_str());
            } else {
                out.append("None");
            }
        }
        out.append("\n");
        out.append("License: ");
        out.append(self.license.as_str());
        out.append("\n");
        proof {
            assert(out@ =~= project_head_view(*self));
        }
        if let Some(u) = &self.homepage {
            out.append("Homepage: ");
            out.append(u.as_str());
            out.append("\n");
        }
        if let Some(u) = &self.repository {
            out.append("Repository: ");
            out.append(u.as_str());
            out.append("\n");
        }
        proof {
            assert(out@ =~= project_head_view(*self) + project_urls_view(*self));
        }
        if let Some(deps) = &self.dependencies {
            if deps.len() > 0 {
                out.append("\nDependencies:\n");
                let ghost dv = deps.deep_view();
                let mut bullets: Vec<String> = Vec::new();
                let nd = deps.len();
                for i in 0..nd
                    invariant
                        nd == deps@.len(),
                        dv == deps.deep_view(),
                        dv.len() == nd,
                        bullets@.len() == i,
                        bullets.deep_view() == Seq::new(i as nat, |k: int| "- "@ + dv[k]),
                {
                    proof {
                        assert(dv[i as int] == deps@[i as int]@);
                    }
                    let mut b = String::from_str("- ");
                    b.append(deps[i].as_str());
                    let ghost prev_dv = bullets.deep_view();
                    bullets.push(b);
                    proof {
                        assert forall|k: int| 0 <= k < i + 1 implies bullets.deep_view()[k]
                            == "- "@ + dv[k] by {
                            assert(bullets.deep_view()[k] == bullets@[k]@);
                            if k < i {
                                assert(prev_dv[k] == "- "@ + dv[k]);
                            }
                        }
                        assert(bullets.deep_view() =~= Seq::new(
                            (i + 1) as nat,
                            |k: int| "- "@ + dv[k],
                        ));
                    }
                }
                let joined = crate::text::join_strings(&bullets, "\n");
                out.append(joined.as_str());
                out.append("\n");
                proof {
                    assert(out@ =~= project_head_view(*self) + project_urls_view(*self)
                        + project_deps_view(*self));
                }
            }
        }
        proof {
            assert(out@ =~= project_text_view(*self));
        }
        out
    }
}

/// The README document for a project, over the grouped script types.
pub fn readme(project: &ProjectData, types: &Vec<(String, Vec<String>)>) -> (r: String)
    ensures
        r@ == readme_view(*project, types.deep_view()),
{
    project.readme(types)
}

} // verus!
