//! The site's content and its shapes: the copyright line, the About links,
//! the projects, the contact links and the timeline, each built by a function
//! whose contract gives its exact values. Every string is an
//! [`EncryptedString`].

use crate::crypt::{encrypted_str, EncryptedString};
use vstd::prelude::*;

verus! {

#[derive(Debug)]
pub struct Link {
    pub name: EncryptedString,
    pub url: EncryptedString,
}

#[derive(Debug)]
pub struct Project {
    pub id: EncryptedString,
    /// Site-root-relative artwork, as on the homepage project cards.
    pub image: Option<EncryptedString>,
    pub tagline: EncryptedString,
    pub links: Vec<Link>,
}

#[derive(Clone, Copy, PartialEq, Eq, Debug)]
pub enum Category {
    Work,
    Education,
    Project,
    Language,
    Milestone,
}

/// The name each category is tagged with.
pub open spec fn category_label(category: Category) -> Seq<char> {
    match category {
        Category::Work => "work"@,
        Category::Education => "education"@,
        Category::Project => "project"@,
        Category::Language => "language"@,
        Category::Milestone => "milestone"@,
    }
}

impl Category {
    pub fn label(self) -> (label: EncryptedString)
        ensures
            label@ == category_label(self),
    {
        match self {
            Category::Work => encrypted_str("work"),
            Category::Education => encrypted_str("education"),
            Category::Project => encrypted_str("project"),
            Category::Language => encrypted_str("language"),
            Category::Milestone => encrypted_str("milestone"),
        }
    }
}

#[derive(Debug)]
pub struct TimelineEvent {
    pub title: EncryptedString,
    pub time: EncryptedString,
    /// Site-root-relative artwork, as on the homepage timeline cards.
    pub image: Option<EncryptedString>,
    pub category: Category,
    pub detail: Option<EncryptedString>,
    pub links: Vec<Link>,
}

/// The samlang program shown on the About tab.
pub const ABOUT_PROGRAM: &'static str = r#"import {List} from std.list;

class Developer(
  val github: Str,
  val projects: List<Str>,
) {
  function sam(): Developer = {
    let github = "SamChou19815";
    let projects = List
      .of("samlang")
      .cons("website")
      .cons("...");
    Developer.init(github, projects)
  }
}

class Main {
  function main(): Developer = Developer.sam()
}"#;


/// A link as values: its name and URL.
pub type LinkView = (Seq<char>, Seq<char>);

/// A project as values: id, artwork, tagline and links.
pub type ProjectView = (Seq<char>, Option<Seq<char>>, Seq<char>, Seq<LinkView>);

/// A timeline event as values: title, time, artwork, category, detail and
/// links.
pub type EventView = (Seq<char>, Seq<char>, Option<Seq<char>>, Category, Option<Seq<char>>, Seq<LinkView>);

/// The plaintext of an optional encrypted string.
pub open spec fn opt_text(text: Option<EncryptedString>) -> Option<Seq<char>> {
    match text {
        Some(t) => Some(t@),
        None => None,
    }
}

/// A link as values.
pub open spec fn link_view(link: Link) -> LinkView {
    (link.name@, link.url@)
}

/// Links as values.
pub open spec fn link_list_view(links: Seq<Link>) -> Seq<LinkView> {
    links.map_values(|link: Link| link_view(link))
}

/// A project as values.
pub open spec fn project_view(p: Project) -> ProjectView {
    (p.id@, opt_text(p.image), p.tagline@, link_list_view(p.links@))
}

/// Projects as values.
pub open spec fn project_list_view(projects: Seq<Project>) -> Seq<ProjectView> {
    projects.map_values(|p: Project| project_view(p))
}

/// A timeline event as values.
pub open spec fn event_view(e: TimelineEvent) -> EventView {
    (e.title@, e.time@, opt_text(e.image), e.category, opt_text(e.detail), link_list_view(e.links@))
}

/// Timeline events as values.
pub open spec fn event_list_view(events: Seq<TimelineEvent>) -> Seq<EventView> {
    events.map_values(|e: TimelineEvent| event_view(e))
}

/// `text` sealed as an encrypted string, for the site's fixed copy.
fn sealed(text: &str) -> (s: EncryptedString)
    ensures
        s@ == text@,
{
    encrypted_str(text)
}

/// The copyright line of the site.
pub open spec fn site_copyright() -> Seq<char> {
    "Copyright (C) 2015-2026 Developer Sam."@
}

/// The links the About program's doc comment carries: name and URL.
pub open spec fn site_doc_links() -> Seq<LinkView> {
    seq![
        (
            "demo"@,
            "https://samlang.io/demo"@,
        ),
        (
            "github"@,
            "https://github.com/SamChou19815"@,
        ),
        (
            "blog"@,
            "https://developersam.com/blog"@,
        ),
        (
            "bsky"@,
            "https://bsky.app/profile/developersam.com"@,
        ),
        (
            "resume"@,
            "https://developersam.com/resume.pdf"@,
        ),
    ]
}

/// Where to find the author: name and URL.
pub open spec fn site_social_links() -> Seq<LinkView> {
    seq![
        (
            "GitHub"@,
            "https://github.com/SamChou19815"@,
        ),
        (
            "Bluesky"@,
            "https://bsky.app/profile/developersam.com"@,
        ),
        (
            "LinkedIn"@,
            "https://www.linkedin.com/in/sam-zhou-30b91610b/"@,
        ),
        (
            "Resume"@,
            "https://developersam.com/resume.pdf"@,
        ),
    ]
}

/// Entry `i` of [`site_projects`].
#[verifier::opaque]
pub open spec fn project_entry(i: int) -> ProjectView {
    if i == 0 {
        (
            "samlang"@,
            Some("/projects/samlang.webp"@),
            "Sam's programming language with full type-inference."@,
            seq![
                (
                    "GitHub Repo"@,
                    "https://github.com/SamChou19815/samlang"@,
                ),
                (
                    "Docs"@,
                    "https://samlang.io"@,
                ),
                (
                    "Demo"@,
                    "https://samlang.io/demo"@,
                ),
            ],
        )
    } else if i == 1 {
        (
            "mini-react"@,
            Some("/projects/mini-react.webp"@),
            "A simplified version of the React runtime with useState and useEffect hooks, built from scratch."@,
            seq![
                (
                    "GitHub Repo"@,
                    "https://github.com/SamChou19815/mini-react"@,
                ),
                (
                    "Demo"@,
                    "https://mini-react.developersam.com"@,
                ),
                (
                    "Slides"@,
                    "https://developersam.com/build-simplified-react.pdf"@,
                ),
            ],
        )
    } else if i == 2 {
        (
            "samwise"@,
            Some("/projects/samwise.webp"@),
            "A todo-list app by Cornell DTI, built with React, Redux and Firebase."@,
            seq![
                (
                    "GitHub Repo"@,
                    "https://github.com/cornell-dti/samwise"@,
                ),
            ],
        )
    } else if i == 3 {
        (
            "courseplan"@,
            Some("/timeline/courseplan-promotion.png"@),
            "Course planning tool for Cornell students by Cornell DTI."@,
            seq![
                (
                    "Product"@,
                    "https://courseplan.io"@,
                ),
                (
                    "GitHub"@,
                    "https://github.com/cornell-dti/course-plan"@,
                ),
            ],
        )
    } else if i == 4 {
        (
            "ten"@,
            Some("/projects/ten.webp"@),
            "A tiny esoteric language implemented in Go."@,
            seq![
                (
                    "GitHub Repo"@,
                    "https://github.com/SamChou19815/ten-golang"@,
                ),
            ],
        )
    } else if i == 5 {
        (
            "critter-compiler"@,
            Some("/timeline/critter-compiler.webp"@),
            "A compiler for the Critter World language from Cornell CS 2112. Proved the language is Turing complete."@,
            seq![
                (
                    "GitHub Repo"@,
                    "https://github.com/SamChou19815/primitivize"@,
                ),
                (
                    "Blog Post"@,
                    "https://blog.developersam.com/2018/08/27/cw-turing-complete/"@,
                ),
            ],
        )
    } else {
        (
            "sampl"@,
            Some("/timeline/sampl.webp"@),
            "Sam's first programming language. Archived in favor of samlang."@,
            seq![
                (
                    "GitHub Repo"@,
                    "https://github.com/SamChou19815/sampl"@,
                ),
                (
                    "Blog Post"@,
                    "https://blog.developersam.com/2018/06/15/sampl-alpha-design-choices/"@,
                ),
            ],
        )
    }
}

/// The projects, as the homepage lists them.
pub open spec fn site_projects() -> Seq<ProjectView> {
    Seq::new(7, |i: int| project_entry(i))
}

/// Entry `i` of [`site_timeline`].
#[verifier::opaque]
pub open spec fn timeline_entry(i: int) -> EventView {
    if i == 0 {
        (
            "Became a Canadian permanent resident"@,
            "August 2026"@,
            Some("/timeline/canada.webp"@),
            Category::Milestone,
            None,
            Seq::empty(),
        )
    } else if i == 1 {
        (
            "Facebook SWE"@,
            "February 2022"@,
            Some("/timeline/flow.webp"@),
            Category::Work,
            Some("Working on Flow's type system, IDE, and performance."@),
            seq![
                (
                    "Website"@,
                    "https://flow.org"@,
                ),
                (
                    "GitHub"@,
                    "https://github.com/facebook/flow"@,
                ),
            ],
        )
    } else if i == 2 {
        (
            "Graduated from Cornell University, Again"@,
            "December 2021"@,
            Some("/fan-arts/graduation-sam.webp"@),
            Category::Education,
            Some("Graduated as an M.Eng student."@),
            Seq::empty(),
        )
    } else if i == 3 {
        (
            "samlang emits WASM code"@,
            "October 2021"@,
            None,
            Category::Language,
            None,
            seq![
                (
                    "Blog Post"@,
                    "https://blog.developersam.com/2021/10/29/samlang-wasm-backend"@,
                ),
            ],
        )
    } else if i == 4 {
        (
            "Facebook SWE Intern"@,
            "June 2021"@,
            Some("/timeline/flow.webp"@),
            Category::Work,
            Some("Working on the Flow team. Implemented the extraction code action for Flow LSP."@),
            seq![
                (
                    "Website"@,
                    "https://flow.org"@,
                ),
                (
                    "GitHub"@,
                    "https://github.com/facebook/flow"@,
                ),
                (
                    "Tech Talk"@,
                    "https://developersam.com/flow-ide-presentation.pdf"@,
                ),
            ],
        )
    } else if i == 5 {
        (
            "Cornell DTI Software Developer"@,
            "September 2021"@,
            Some("/timeline/courseplan-promotion.png"@),
            Category::Work,
            Some("Developer on CoursePlan"@),
            seq![
                (
                    "Product"@,
                    "https://courseplan.io"@,
                ),
                (
                    "GitHub"@,
                    "https://github.com/cornell-dti/course-plan"@,
                ),
                (
                    "Tech Talk"@,
                    "https://developersam.com/courseplan-requirement.pdf"@,
                ),
            ],
        )
    } else if i == 6 {
        (
            "Graduated from Cornell University"@,
            "May 2021"@,
            Some("/fan-arts/graduation-sam.webp"@),
            Category::Education,
            Some("Graduated as an undergrad."@),
            Seq::empty(),
        )
    } else if i == 7 {
        (
            "samlang emits LLVM code"@,
            "January 2021"@,
            None,
            Category::Language,
            None,
            seq![
                (
                    "Blog Post"@,
                    "https://blog.developersam.com/2021/01/24/samlang-llvm-backend"@,
                ),
            ],
        )
    } else if i == 8 {
        (
            "samlang rewritten in TypeScript"@,
            "August 2020"@,
            None,
            Category::Language,
            None,
            seq![
                (
                    "Blog Post"@,
                    "https://blog.developersam.com/2020/08/30/samlang-ts-rewrite"@,
                ),
            ],
        )
    } else if i == 9 {
        (
            "Facebook SWE Intern"@,
            "June 2020"@,
            Some("/timeline/fb-sticker-pen.webp"@),
            Category::Work,
            Some("Working on the Feed Expressions team."@),
            Seq::empty(),
        )
    } else if i == 10 {
        (
            "mini-react"@,
            "May 2020"@,
            Some("/projects/mini-react.webp"@),
            Category::Project,
            Some("A simplified version of the React runtime with useState and useEffect hooks, built from scratch."@),
            seq![
                (
                    "GitHub Repo"@,
                    "https://github.com/SamChou19815/mini-react"@,
                ),
                (
                    "Demo"@,
                    "https://mini-react.developersam.com"@,
                ),
                (
                    "Slides"@,
                    "https://developersam.com/build-simplified-react.pdf"@,
                ),
            ],
        )
    } else if i == 11 {
        (
            "Tech Talk: Build your programming language"@,
            "March 2020"@,
            None,
            Category::Milestone,
            Some("A tutorial of making a simple programming language derived from lambda-calculus."@),
            seq![
                (
                    "Slides"@,
                    "https://developersam.com/build-your-own-programming-language.pdf"@,
                ),
            ],
        )
    } else if i == 12 {
        (
            "Cornell DTI Developer Lead"@,
            "June 2019"@,
            None,
            Category::Work,
            None,
            seq![
                (
                    "Cornell DTI Website"@,
                    "https://www.cornelldti.org"@,
                ),
            ],
        )
    } else if i == 13 {
        (
            "Facebook SWE Intern"@,
            "May 2019"@,
            Some("/timeline/pyre-check.webp"@),
            Category::Work,
            Some("Working on the Pyre team."@),
            seq![
                (
                    "Website"@,
                    "https://pyre-check.org"@,
                ),
                (
                    "GitHub"@,
                    "https://github.com/facebook/pyre-check"@,
                ),
            ],
        )
    } else if i == 14 {
        (
            "Website Redesign v3.0"@,
            "March 2019"@,
            Some("/timeline/website-v3.webp"@),
            Category::Milestone,
            Some("This is the first version that includes a samlang program about myself."@),
            seq![
                (
                    "Archive"@,
                    "https://web.archive.org/web/20200331050322/https://developersam.com/"@,
                ),
            ],
        )
    } else if i == 15 {
        (
            "Cornell DTI TPM"@,
            "January 2019"@,
            None,
            Category::Work,
            Some("Technical product manager of the Samwise subteam."@),
            seq![
                (
                    "Cornell DTI Website"@,
                    "https://www.cornelldti.org"@,
                ),
            ],
        )
    } else if i == 16 {
        (
            "samlang"@,
            "January 2019"@,
            Some("/projects/samlang.webp"@),
            Category::Language,
            Some("Sam's programming language with full type-inference."@),
            seq![
                (
                    "GitHub Repo"@,
                    "https://github.com/SamChou19815/samlang"@,
                ),
                (
                    "Docs"@,
                    "https://samlang.io"@,
                ),
            ],
        )
    } else if i == 17 {
        (
            "Cornell DTI Software Developer"@,
            "September 2018"@,
            Some("/projects/samwise.webp"@),
            Category::Work,
            Some("Frontend Developer of Samwise"@),
            seq![
                (
                    "GitHub Repo"@,
                    "https://github.com/cornell-dti/samwise"@,
                ),
            ],
        )
    } else if i == 18 {
        (
            "Critter Compiler"@,
            "August 2018"@,
            Some("/timeline/critter-compiler.webp"@),
            Category::Project,
            None,
            seq![
                (
                    "GitHub Repo"@,
                    "https://github.com/SamChou19815/primitivize"@,
                ),
                (
                    "Blog Post"@,
                    "https://blog.developersam.com/2018/08/27/cw-turing-complete/"@,
                ),
            ],
        )
    } else if i == 19 {
        (
            "Website Redesign v2"@,
            "July 2018"@,
            Some("/timeline/website-v2.webp"@),
            Category::Milestone,
            None,
            seq![
                (
                    "Archive"@,
                    "https://web.archive.org/web/20190102202556/https://developersam.com/"@,
                ),
            ],
        )
    } else if i == 20 {
        (
            "SAMPL"@,
            "June 2018"@,
            Some("/timeline/sampl.webp"@),
            Category::Language,
            Some("Sam's first programming language. Archived in favor of samlang."@),
            seq![
                (
                    "GitHub Repo"@,
                    "https://github.com/SamChou19815/sampl"@,
                ),
                (
                    "Blog Post"@,
                    "https://blog.developersam.com/2018/06/15/sampl-alpha-design-choices/"@,
                ),
            ],
        )
    } else if i == 21 {
        (
            "CS 2112 Critter World"@,
            "December 2017"@,
            Some("/timeline/critter-world.webp"@),
            Category::Project,
            Some("Sam's critter world implementation. Used as course staff reference solution in Fall 2018 and Fall 2019."@),
            Seq::empty(),
        )
    } else if i == 22 {
        (
            "Entered Cornell University"@,
            "August 2017"@,
            None,
            Category::Education,
            None,
            Seq::empty(),
        )
    } else if i == 23 {
        (
            "TEN"@,
            "July 2017"@,
            Some("/projects/ten.webp"@),
            Category::Project,
            None,
            seq![
                (
                    "GitHub Repo"@,
                    "https://github.com/SamChou19815/ten-golang"@,
                ),
            ],
        )
    } else if i == 24 {
        (
            "Graduated from High School"@,
            "June 2016"@,
            None,
            Category::Education,
            None,
            seq![
                (
                    "Blog: CS in High Schools"@,
                    "https://blog.developersam.com/2018/12/31/cs-in-high-schools/"@,
                ),
            ],
        )
    } else if i == 25 {
        (
            "Computerization Club President"@,
            "September 2015"@,
            Some("/timeline/sam-later.webp"@),
            Category::Milestone,
            None,
            Seq::empty(),
        )
    } else if i == 26 {
        (
            "Computerization Software Developer"@,
            "February 2015"@,
            None,
            Category::Milestone,
            None,
            Seq::empty(),
        )
    } else {
        (
            "Bought developersam.com"@,
            "February 2015"@,
            None,
            Category::Milestone,
            Some("Check how it looks initially!"@),
            seq![
                (
                    "Initial Version"@,
                    "https://web.archive.org/web/20160506203739/http://www.developersam.com/"@,
                ),
            ],
        )
    }
}

/// The homepage timeline, newest first.
pub open spec fn site_timeline() -> Seq<EventView> {
    Seq::new(28, |i: int| timeline_entry(i))
}

/// The copyright line of the site.
pub fn copyright() -> (line: EncryptedString)
    ensures
        line@ == site_copyright(),
{
    sealed("Copyright (C) 2015-2026 Developer Sam.")
}

/// The links the About program's doc comment carries: name and URL.
pub fn about_doc_links() -> (content: Vec<Link>)
    ensures
        link_list_view(content@) == site_doc_links(),
{
    let content = vec![
        Link {
            name: sealed("demo"),
            url: sealed("https://samlang.io/demo"),
        },
        Link {
            name: sealed("github"),
            url: sealed("https://github.com/SamChou19815"),
        },
        Link {
            name: sealed("blog"),
            url: sealed("https://developersam.com/blog"),
        },
        Link {
            name: sealed("bsky"),
            url: sealed("https://bsky.app/profile/developersam.com"),
        },
        Link {
            name: sealed("resume"),
            url: sealed("https://developersam.com/resume.pdf"),
        },
    ];
    assert(link_list_view(content@) =~~= site_doc_links());
    content
}

/// Where to find the author: name and URL.
pub fn social_links() -> (content: Vec<Link>)
    ensures
        link_list_view(content@) == site_social_links(),
{
    let content = vec![
        Link {
            name: sealed("GitHub"),
            url: sealed("https://github.com/SamChou19815"),
        },
        Link {
            name: sealed("Bluesky"),
            url: sealed("https://bsky.app/profile/developersam.com"),
        },
        Link {
            name: sealed("LinkedIn"),
            url: sealed("https://www.linkedin.com/in/sam-zhou-30b91610b/"),
        },
        Link {
            name: sealed("Resume"),
            url: sealed("https://developersam.com/resume.pdf"),
        },
    ];
    assert(link_list_view(content@) =~~= site_social_links());
    content
}

/// Entry `i` of [`projects`].
fn project_at(i: usize) -> (entry: Project)
    requires
        i < 7,
    ensures
        project_view(entry) == project_entry(i as int),
{
    proof {
        reveal(project_entry);
    }
    match i {
        0 => {
            let entry = Project {
                id: sealed("samlang"),
                image: Some(sealed("/projects/samlang.webp")),
                tagline: sealed("Sam's programming language with full type-inference."),
                links: vec![
                    Link {
                        name: sealed("GitHub Repo"),
                        url: sealed("https://github.com/SamChou19815/samlang"),
                    },
                    Link {
                        name: sealed("Docs"),
                        url: sealed("https://samlang.io"),
                    },
                    Link {
                        name: sealed("Demo"),
                        url: sealed("https://samlang.io/demo"),
                    },
                ],
            };
            assert(link_list_view(entry.links@) =~= project_entry(0).3);
            entry
        },
        1 => {
            let entry = Project {
                id: sealed("mini-react"),
                image: Some(sealed("/projects/mini-react.webp")),
                tagline: sealed("A simplified version of the React runtime with useState and useEffect hooks, built from scratch."),
                links: vec![
                    Link {
                        name: sealed("GitHub Repo"),
                        url: sealed("https://github.com/SamChou19815/mini-react"),
                    },
                    Link {
                        name: sealed("Demo"),
                        url: sealed("https://mini-react.developersam.com"),
                    },
                    Link {
                        name: sealed("Slides"),
                        url: sealed("https://developersam.com/build-simplified-react.pdf"),
                    },
                ],
            };
            assert(link_list_view(entry.links@) =~= project_entry(1).3);
            entry
        },
        2 => {
            let entry = Project {
                id: sealed("samwise"),
                image: Some(sealed("/projects/samwise.webp")),
                tagline: sealed("A todo-list app by Cornell DTI, built with React, Redux and Firebase."),
                links: vec![
                    Link {
                        name: sealed("GitHub Repo"),
                        url: sealed("https://github.com/cornell-dti/samwise"),
                    },
                ],
            };
            assert(link_list_view(entry.links@) =~= project_entry(2).3);
            entry
        },
        3 => {
            let entry = Project {
                id: sealed("courseplan"),
                image: Some(sealed("/timeline/courseplan-promotion.png")),
                tagline: sealed("Course planning tool for Cornell students by Cornell DTI."),
                links: vec![
                    Link {
                        name: sealed("Product"),
                        url: sealed("https://courseplan.io"),
                    },
                    Link {
                        name: sealed("GitHub"),
                        url: sealed("https://github.com/cornell-dti/course-plan"),
                    },
                ],
            };
            assert(link_list_view(entry.links@) =~= project_entry(3).3);
            entry
        },
        4 => {
            let entry = Project {
                id: sealed("ten"),
                image: Some(sealed("/projects/ten.webp")),
                tagline: sealed("A tiny esoteric language implemented in Go."),
                links: vec![
                    Link {
                        name: sealed("GitHub Repo"),
                        url: sealed("https://github.com/SamChou19815/ten-golang"),
                    },
                ],
            };
            assert(link_list_view(entry.links@) =~= project_entry(4).3);
            entry
        },
        5 => {
            let entry = Project {
                id: sealed("critter-compiler"),
                image: Some(sealed("/timeline/critter-compiler.webp")),
                tagline: sealed("A compiler for the Critter World language from Cornell CS 2112. Proved the language is Turing complete."),
                links: vec![
                    Link {
                        name: sealed("GitHub Repo"),
                        url: sealed("https://github.com/SamChou19815/primitivize"),
                    },
                    Link {
                        name: sealed("Blog Post"),
                        url: sealed("https://blog.developersam.com/2018/08/27/cw-turing-complete/"),
                    },
                ],
            };
            assert(link_list_view(entry.links@) =~= project_entry(5).3);
            entry
        },
        _ => {
            let entry = Project {
                id: sealed("sampl"),
                image: Some(sealed("/timeline/sampl.webp")),
                tagline: sealed("Sam's first programming language. Archived in favor of samlang."),
                links: vec![
                    Link {
                        name: sealed("GitHub Repo"),
                        url: sealed("https://github.com/SamChou19815/sampl"),
                    },
                    Link {
                        name: sealed("Blog Post"),
                        url: sealed("https://blog.developersam.com/2018/06/15/sampl-alpha-design-choices/"),
                    },
                ],
            };
            assert(link_list_view(entry.links@) =~= project_entry(6).3);
            entry
        },
    }
}

/// The projects, as the homepage lists them.
pub fn projects() -> (content: Vec<Project>)
    ensures
        project_list_view(content@) == site_projects(),
{
    let mut content: Vec<Project> = Vec::new();
    let mut i: usize = 0;
    while i < 7
        invariant
            i <= 7,
            project_list_view(content@) =~= Seq::new(i as nat, |j: int| project_entry(j)),
            content@.len() == i,
        decreases 7 - i,
    {
        let entry = project_at(i);
        let ghost before = content@;
        let ghost item = entry;
        content.push(entry);
        assert(content@ == before.push(item));
        assert(content@[i as int] == item);
        assert forall|j: int| 0 <= j < i + 1 implies #[trigger] project_list_view(content@)[j] == project_entry(j) by {
            if j < i {
                assert(content@[j] == before[j]);
                assert(project_list_view(before)[j] == Seq::new(i as nat, |k: int| project_entry(k))[j]);
            } else {
                assert(content@[j] == item);
            }
        }
        assert(project_list_view(content@) =~= Seq::new((i + 1) as nat, |j: int| project_entry(j)));
        i = i + 1;
    }
    content
}

/// Entry `i` of [`timeline`].
#[verifier::rlimit(60)]
fn timeline_event_at(i: usize) -> (entry: TimelineEvent)
    requires
        i < 28,
    ensures
        event_view(entry) == timeline_entry(i as int),
{
    proof {
        reveal(timeline_entry);
    }
    match i {
        0 => {
            let entry = TimelineEvent {
                title: sealed("Became a Canadian permanent resident"),
                time: sealed("August 2026"),
                image: Some(sealed("/timeline/canada.webp")),
                category: Category::Milestone,
                detail: None,
                links: Vec::new(),
            };
            assert(link_list_view(entry.links@) =~= timeline_entry(0).5);
            entry
        },
        1 => {
            let entry = TimelineEvent {
                title: sealed("Facebook SWE"),
                time: sealed("February 2022"),
                image: Some(sealed("/timeline/flow.webp")),
                category: Category::Work,
                detail: Some(sealed("Working on Flow's type system, IDE, and performance.")),
                links: vec![
                    Link {
                        name: sealed("Website"),
                        url: sealed("https://flow.org"),
                    },
                    Link {
                        name: sealed("GitHub"),
                        url: sealed("https://github.com/facebook/flow"),
                    },
                ],
            };
            assert(link_list_view(entry.links@) =~= timeline_entry(1).5);
            entry
        },
        2 => {
            let entry = TimelineEvent {
                title: sealed("Graduated from Cornell University, Again"),
                time: sealed("December 2021"),
                image: Some(sealed("/fan-arts/graduation-sam.webp")),
                category: Category::Education,
                detail: Some(sealed("Graduated as an M.Eng student.")),
                links: Vec::new(),
            };
            assert(link_list_view(entry.links@) =~= timeline_entry(2).5);
            entry
        },
        3 => {
            let entry = TimelineEvent {
                title: sealed("samlang emits WASM code"),
                time: sealed("October 2021"),
                image: None,
                category: Category::Language,
                detail: None,
                links: vec![
                    Link {
                        name: sealed("Blog Post"),
                        url: sealed("https://blog.developersam.com/2021/10/29/samlang-wasm-backend"),
                    },
                ],
            };
            assert(link_list_view(entry.links@) =~= timeline_entry(3).5);
            entry
        },
        4 => {
            let entry = TimelineEvent {
                title: sealed("Facebook SWE Intern"),
                time: sealed("June 2021"),
                image: Some(sealed("/timeline/flow.webp")),
                category: Category::Work,
                detail: Some(sealed("Working on the Flow team. Implemented the extraction code action for Flow LSP.")),
                links: vec![
                    Link {
                        name: sealed("Website"),
                        url: sealed("https://flow.org"),
                    },
                    Link {
                        name: sealed("GitHub"),
                        url: sealed("https://github.com/facebook/flow"),
                    },
                    Link {
                        name: sealed("Tech Talk"),
                        url: sealed("https://developersam.com/flow-ide-presentation.pdf"),
                    },
                ],
            };
            assert(link_list_view(entry.links@) =~= timeline_entry(4).5);
            entry
        },
        5 => {
            let entry = TimelineEvent {
                title: sealed("Cornell DTI Software Developer"),
                time: sealed("September 2021"),
                image: Some(sealed("/timeline/courseplan-promotion.png")),
                category: Category::Work,
                detail: Some(sealed("Developer on CoursePlan")),
                links: vec![
                    Link {
                        name: sealed("Product"),
                        url: sealed("https://courseplan.io"),
                    },
                    Link {
                        name: sealed("GitHub"),
                        url: sealed("https://github.com/cornell-dti/course-plan"),
                    },
                    Link {
                        name: sealed("Tech Talk"),
                        url: sealed("https://developersam.com/courseplan-requirement.pdf"),
                    },
                ],
            };
            assert(link_list_view(entry.links@) =~= timeline_entry(5).5);
            entry
        },
        6 => {
            let entry = TimelineEvent {
                title: sealed("Graduated from Cornell University"),
                time: sealed("May 2021"),
                image: Some(sealed("/fan-arts/graduation-sam.webp")),
                category: Category::Education,
                detail: Some(sealed("Graduated as an undergrad.")),
                links: Vec::new(),
            };
            assert(link_list_view(entry.links@) =~= timeline_entry(6).5);
            entry
        },
        7 => {
            let entry = TimelineEvent {
                title: sealed("samlang emits LLVM code"),
                time: sealed("January 2021"),
                image: None,
                category: Category::Language,
                detail: None,
                links: vec![
                    Link {
                        name: sealed("Blog Post"),
                        url: sealed("https://blog.developersam.com/2021/01/24/samlang-llvm-backend"),
                    },
                ],
            };
            assert(link_list_view(entry.links@) =~= timeline_entry(7).5);
            entry
        },
        8 => {
            let entry = TimelineEvent {
                title: sealed("samlang rewritten in TypeScript"),
                time: sealed("August 2020"),
                image: None,
                category: Category::Language,
                detail: None,
                links: vec![
                    Link {
                        name: sealed("Blog Post"),
                        url: sealed("https://blog.developersam.com/2020/08/30/samlang-ts-rewrite"),
                    },
                ],
            };
            assert(link_list_view(entry.links@) =~= timeline_entry(8).5);
            entry
        },
        9 => {
            let entry = TimelineEvent {
                title: sealed("Facebook SWE Intern"),
                time: sealed("June 2020"),
                image: Some(sealed("/timeline/fb-sticker-pen.webp")),
                category: Category::Work,
                detail: Some(sealed("Working on the Feed Expressions team.")),
                links: Vec::new(),
            };
            assert(link_list_view(entry.links@) =~= timeline_entry(9).5);
            entry
        },
        10 => {
            let entry = TimelineEvent {
                title: sealed("mini-react"),
                time: sealed("May 2020"),
                image: Some(sealed("/projects/mini-react.webp")),
                category: Category::Project,
                detail: Some(sealed("A simplified version of the React runtime with useState and useEffect hooks, built from scratch.")),
                links: vec![
                    Link {
                        name: sealed("GitHub Repo"),
                        url: sealed("https://github.com/SamChou19815/mini-react"),
                    },
                    Link {
                        name: sealed("Demo"),
                        url: sealed("https://mini-react.developersam.com"),
                    },
                    Link {
                        name: sealed("Slides"),
                        url: sealed("https://developersam.com/build-simplified-react.pdf"),
                    },
                ],
            };
            assert(link_list_view(entry.links@) =~= timeline_entry(10).5);
            entry
        },
        11 => {
            let entry = TimelineEvent {
                title: sealed("Tech Talk: Build your programming language"),
                time: sealed("March 2020"),
                image: None,
                category: Category::Milestone,
                detail: Some(sealed("A tutorial of making a simple programming language derived from lambda-calculus.")),
                links: vec![
                    Link {
                        name: sealed("Slides"),
                        url: sealed("https://developersam.com/build-your-own-programming-language.pdf"),
                    },
                ],
            };
            assert(link_list_view(entry.links@) =~= timeline_entry(11).5);
            entry
        },
        12 => {
            let entry = TimelineEvent {
                title: sealed("Cornell DTI Developer Lead"),
                time: sealed("June 2019"),
                image: None,
                category: Category::Work,
                detail: None,
                links: vec![
                    Link {
                        name: sealed("Cornell DTI Website"),
                        url: sealed("https://www.cornelldti.org"),
                    },
                ],
            };
            assert(link_list_view(entry.links@) =~= timeline_entry(12).5);
            entry
        },
        13 => {
            let entry = TimelineEvent {
                title: sealed("Facebook SWE Intern"),
                time: sealed("May 2019"),
                image: Some(sealed("/timeline/pyre-check.webp")),
                category: Category::Work,
                detail: Some(sealed("Working on the Pyre team.")),
                links: vec![
                    Link {
                        name: sealed("Website"),
                        url: sealed("https://pyre-check.org"),
                    },
                    Link {
                        name: sealed("GitHub"),
                        url: sealed("https://github.com/facebook/pyre-check"),
                    },
                ],
            };
            assert(link_list_view(entry.links@) =~= timeline_entry(13).5);
            entry
        },
        14 => {
            let entry = TimelineEvent {
                title: sealed("Website Redesign v3.0"),
                time: sealed("March 2019"),
                image: Some(sealed("/timeline/website-v3.webp")),
                category: Category::Milestone,
                detail: Some(sealed("This is the first version that includes a samlang program about myself.")),
                links: vec![
                    Link {
                        name: sealed("Archive"),
                        url: sealed("https://web.archive.org/web/20200331050322/https://developersam.com/"),
                    },
                ],
            };
            assert(link_list_view(entry.links@) =~= timeline_entry(14).5);
            entry
        },
        15 => {
            let entry = TimelineEvent {
                title: sealed("Cornell DTI TPM"),
                time: sealed("January 2019"),
                image: None,
                category: Category::Work,
                detail: Some(sealed("Technical product manager of the Samwise subteam.")),
                links: vec![
                    Link {
                        name: sealed("Cornell DTI Website"),
                        url: sealed("https://www.cornelldti.org"),
                    },
                ],
            };
            assert(link_list_view(entry.links@) =~= timeline_entry(15).5);
            entry
        },
        16 => {
            let entry = TimelineEvent {
                title: sealed("samlang"),
                time: sealed("January 2019"),
                image: Some(sealed("/projects/samlang.webp")),
                category: Category::Language,
                detail: Some(sealed("Sam's programming language with full type-inference.")),
                links: vec![
                    Link {
                        name: sealed("GitHub Repo"),
                        url: sealed("https://github.com/SamChou19815/samlang"),
                    },
                    Link {
                        name: sealed("Docs"),
                        url: sealed("https://samlang.io"),
                    },
                ],
            };
            assert(link_list_view(entry.links@) =~= timeline_entry(16).5);
            entry
        },
        17 => {
            let entry = TimelineEvent {
                title: sealed("Cornell DTI Software Developer"),
                time: sealed("September 2018"),
                image: Some(sealed("/projects/samwise.webp")),
                category: Category::Work,
                detail: Some(sealed("Frontend Developer of Samwise")),
                links: vec![
                    Link {
                        name: sealed("GitHub Repo"),
                        url: sealed("https://github.com/cornell-dti/samwise"),
                    },
                ],
            };
            assert(link_list_view(entry.links@) =~= timeline_entry(17).5);
            entry
        },
        18 => {
            let entry = TimelineEvent {
                title: sealed("Critter Compiler"),
                time: sealed("August 2018"),
                image: Some(sealed("/timeline/critter-compiler.webp")),
                category: Category::Project,
                detail: None,
                links: vec![
                    Link {
                        name: sealed("GitHub Repo"),
                        url: sealed("https://github.com/SamChou19815/primitivize"),
                    },
                    Link {
                        name: sealed("Blog Post"),
                        url: sealed("https://blog.developersam.com/2018/08/27/cw-turing-complete/"),
                    },
                ],
            };
            assert(link_list_view(entry.links@) =~= timeline_entry(18).5);
            entry
        },
        19 => {
            let entry = TimelineEvent {
                title: sealed("Website Redesign v2"),
                time: sealed("July 2018"),
                image: Some(sealed("/timeline/website-v2.webp")),
                category: Category::Milestone,
                detail: None,
                links: vec![
                    Link {
                        name: sealed("Archive"),
                        url: sealed("https://web.archive.org/web/20190102202556/https://developersam.com/"),
                    },
                ],
            };
            assert(link_list_view(entry.links@) =~= timeline_entry(19).5);
            entry
        },
        20 => {
            let entry = TimelineEvent {
                title: sealed("SAMPL"),
                time: sealed("June 2018"),
                image: Some(sealed("/timeline/sampl.webp")),
                category: Category::Language,
                detail: Some(sealed("Sam's first programming language. Archived in favor of samlang.")),
                links: vec![
                    Link {
                        name: sealed("GitHub Repo"),
                        url: sealed("https://github.com/SamChou19815/sampl"),
                    },
                    Link {
                        name: sealed("Blog Post"),
                        url: sealed("https://blog.developersam.com/2018/06/15/sampl-alpha-design-choices/"),
                    },
                ],
            };
            assert(link_list_view(entry.links@) =~= timeline_entry(20).5);
            entry
        },
        21 => {
            let entry = TimelineEvent {
                title: sealed("CS 2112 Critter World"),
                time: sealed("December 2017"),
                image: Some(sealed("/timeline/critter-world.webp")),
                category: Category::Project,
                detail: Some(sealed("Sam's critter world implementation. Used as course staff reference solution in Fall 2018 and Fall 2019.")),
                links: Vec::new(),
            };
            assert(link_list_view(entry.links@) =~= timeline_entry(21).5);
            entry
        },
        22 => {
            let entry = TimelineEvent {
                title: sealed("Entered Cornell University"),
                time: sealed("August 2017"),
                image: None,
                category: Category::Education,
                detail: None,
                links: Vec::new(),
            };
            assert(link_list_view(entry.links@) =~= timeline_entry(22).5);
            entry
        },
        23 => {
            let entry = TimelineEvent {
                title: sealed("TEN"),
                time: sealed("July 2017"),
                image: Some(sealed("/projects/ten.webp")),
                category: Category::Project,
                detail: None,
                links: vec![
                    Link {
                        name: sealed("GitHub Repo"),
                        url: sealed("https://github.com/SamChou19815/ten-golang"),
                    },
                ],
            };
            assert(link_list_view(entry.links@) =~= timeline_entry(23).5);
            entry
        },
        24 => {
            let entry = TimelineEvent {
                title: sealed("Graduated from High School"),
                time: sealed("June 2016"),
                image: None,
                category: Category::Education,
                detail: None,
                links: vec![
                    Link {
                        name: sealed("Blog: CS in High Schools"),
                        url: sealed("https://blog.developersam.com/2018/12/31/cs-in-high-schools/"),
                    },
                ],
            };
            assert(link_list_view(entry.links@) =~= timeline_entry(24).5);
            entry
        },
        25 => {
            let entry = TimelineEvent {
                title: sealed("Computerization Club President"),
                time: sealed("September 2015"),
                image: Some(sealed("/timeline/sam-later.webp")),
                category: Category::Milestone,
                detail: None,
                links: Vec::new(),
            };
            assert(link_list_view(entry.links@) =~= timeline_entry(25).5);
            entry
        },
        26 => {
            let entry = TimelineEvent {
                title: sealed("Computerization Software Developer"),
                time: sealed("February 2015"),
                image: None,
                category: Category::Milestone,
                detail: None,
                links: Vec::new(),
            };
            assert(link_list_view(entry.links@) =~= timeline_entry(26).5);
            entry
        },
        _ => {
            let entry = TimelineEvent {
                title: sealed("Bought developersam.com"),
                time: sealed("February 2015"),
                image: None,
                category: Category::Milestone,
                detail: Some(sealed("Check how it looks initially!")),
                links: vec![
                    Link {
                        name: sealed("Initial Version"),
                        url: sealed("https://web.archive.org/web/20160506203739/http://www.developersam.com/"),
                    },
                ],
            };
            assert(link_list_view(entry.links@) =~= timeline_entry(27).5);
            entry
        },
    }
}

/// The homepage timeline, newest first.
pub fn timeline() -> (content: Vec<TimelineEvent>)
    ensures
        event_list_view(content@) == site_timeline(),
{
    let mut content: Vec<TimelineEvent> = Vec::new();
    let mut i: usize = 0;
    while i < 28
        invariant
            i <= 28,
            event_list_view(content@) =~= Seq::new(i as nat, |j: int| timeline_entry(j)),
            content@.len() == i,
        decreases 28 - i,
    {
        let entry = timeline_event_at(i);
        let ghost before = content@;
        let ghost item = entry;
        content.push(entry);
        assert(content@ == before.push(item));
        assert(content@[i as int] == item);
        assert forall|j: int| 0 <= j < i + 1 implies #[trigger] event_list_view(content@)[j] == timeline_entry(j) by {
            if j < i {
                assert(content@[j] == before[j]);
                assert(event_list_view(before)[j] == Seq::new(i as nat, |k: int| timeline_entry(k))[j]);
            } else {
                assert(content@[j] == item);
            }
        }
        assert(event_list_view(content@) =~= Seq::new((i + 1) as nat, |j: int| timeline_entry(j)));
        i = i + 1;
    }
    content
}

} // verus!
