//! `dev-sam-sh`, the small shell the site's terminal opens on: its commands,
//! its virtual home directory, path resolution, command suggestions by edit
//! distance, and tab completion. What a command prints is decided here; how
//! it is coloured for the terminal is not.

use crate::text::{
    copy_strings,
    has_prefix, is_white, lemma_trimmed_ends, lemma_trimmed_len, lemma_word_lengths, lemma_words_end, pieces,
    same_text, split_at_char, split_words, starts_with, texts_of, trim, trimmed, words, blank,
    is_blank, leading_white, trim_start, trimmed_start, lemma_words_of_nonblank,
};
use vstd::prelude::*;
use vstd::string::*;

verus! {

broadcast use vstd::seq_lib::group_seq_properties;

/// The shell's commands, in the order suggestions are tried.
pub open spec fn command_names() -> Seq<Seq<char>> {
    seq![
        "cat"@,
        "cd"@,
        "clear"@,
        "dev-sam"@,
        "echo"@,
        "help"@,
        "history"@,
        "ls"@,
        "pwd"@,
        "whoami"@,
    ]
}

/// The shell's commands, in order.
pub fn commands() -> (names: Vec<&'static str>)
    ensures
        names@.len() == command_names().len(),
        forall|i: int| 0 <= i < names@.len() ==> #[trigger] names@[i]@ == command_names()[i],
{
    vec!["cat", "cd", "clear", "dev-sam", "echo", "help", "history", "ls", "pwd", "whoami"]
}

/// The home directory's entries: its one directory and its files.
pub open spec fn home_listing() -> Seq<(Seq<char>, bool)> {
    seq![
        ("projects/"@, true),
        ("about.txt"@, false),
        ("contact.txt"@, false),
        ("readme.md"@, false),
        ("resume.pdf"@, false),
        ("timeline.txt"@, false),
    ]
}

/// The entries of the directory at `path` (segments below the home
/// directory), if it is one: the home directory, or `projects` with a file
/// per project.
pub open spec fn listing(path: Seq<Seq<char>>, projects: Seq<Seq<char>>) -> Option<
    Seq<(Seq<char>, bool)>,
> {
    if path.len() == 0 {
        Some(home_listing())
    } else if path.len() == 1 && path[0] == "projects"@ {
        Some(as_files(projects))
    } else {
        None
    }
}

/// Each name as a file entry.
pub open spec fn as_files(names: Seq<Seq<char>>) -> Seq<(Seq<char>, bool)> {
    names.map_values(|name: Seq<char>| (name, false))
}

/// The home directory's files.
pub open spec fn home_files() -> Seq<Seq<char>> {
    seq!["readme.md"@, "about.txt"@, "contact.txt"@, "resume.pdf"@, "timeline.txt"@]
}

/// Whether `path` is a file: one of the home directory's, or a project's
/// under `projects`.
pub open spec fn is_file(path: Seq<Seq<char>>, projects: Seq<Seq<char>>) -> bool {
    ||| path.len() == 1 && home_files().contains(path[0])
    ||| path.len() == 2 && path[0] == "projects"@ && projects.contains(path[1])
}

/// An entry listing as text and flag.
pub open spec fn entries_view(entries: Seq<(String, bool)>) -> Seq<(Seq<char>, bool)> {
    entries.map_values(|entry: (String, bool)| (entry.0@, entry.1))
}

/// `path` after one segment of a typed path: empty segments and `.` stay,
/// `..` goes up (not past the home directory), anything else goes down.
pub open spec fn step_path(path: Seq<Seq<char>>, part: Seq<char>) -> Seq<Seq<char>> {
    if part.len() == 0 || part == "."@ {
        path
    } else if part == ".."@ {
        if path.len() > 0 {
            path.drop_last()
        } else {
            path
        }
    } else {
        path.push(part)
    }
}

/// `path` after each of `parts` in turn.
pub open spec fn walked(path: Seq<Seq<char>>, parts: Seq<Seq<char>>) -> Seq<Seq<char>>
    decreases parts.len(),
{
    if parts.len() == 0 {
        path
    } else {
        step_path(walked(path, parts.drop_last()), parts.last())
    }
}

/// Where a typed path leads from `cwd`: its `/`-separated segments walked in
/// turn. A leading `/` is no root: paths are always relative to `cwd`.
pub open spec fn resolved(cwd: Seq<Seq<char>>, arg: Seq<char>) -> Seq<Seq<char>> {
    walked(cwd, pieces(arg, '/'))
}

/// `parts` joined with `sep` between consecutive parts.
pub open spec fn joined(parts: Seq<Seq<char>>, sep: Seq<char>) -> Seq<char>
    decreases parts.len(),
{
    if parts.len() == 0 {
        Seq::empty()
    } else if parts.len() == 1 {
        parts[0]
    } else {
        joined(parts.drop_last(), sep) + sep + parts.last()
    }
}

/// What `pwd` prints in `cwd`.
pub open spec fn pwd_text(cwd: Seq<Seq<char>>) -> Seq<char> {
    if cwd.len() == 0 {
        "/home/sam\n"@
    } else {
        "/home/sam/"@ + joined(cwd, "/"@) + "\n"@
    }
}

/// The least of three numbers.
pub open spec fn min3(a: nat, b: nat, c: nat) -> nat {
    if a <= b && a <= c {
        a
    } else if b <= c {
        b
    } else {
        c
    }
}

/// The edit (Levenshtein) distance between `a` and `b`: the fewest single
/// character insertions, deletions and substitutions that turn one into the
/// other.
pub open spec fn edit_distance(a: Seq<char>, b: Seq<char>) -> nat
    decreases a.len() + b.len(),
{
    if a.len() == 0 {
        b.len()
    } else if b.len() == 0 {
        a.len()
    } else {
        min3(
            edit_distance(a.drop_last(), b.drop_last()) + (if a.last() == b.last() {
                0nat
            } else {
                1nat
            }),
            edit_distance(a.drop_last(), b) + 1,
            edit_distance(a, b.drop_last()) + 1,
        )
    }
}

/// No two texts are further apart than the longer one is long.
pub proof fn lemma_edit_distance_bound(a: Seq<char>, b: Seq<char>)
    ensures
        edit_distance(a, b) <= if a.len() >= b.len() {
            a.len()
        } else {
            b.len()
        },
    decreases a.len() + b.len(),
{
    if a.len() > 0 && b.len() > 0 {
        lemma_edit_distance_bound(a.drop_last(), b.drop_last());
    }
}

/// The edit distance between two strings, by the two-row dynamic program.
pub fn levenshtein(a: &str, b: &str) -> (distance: usize)
    requires
        a@.len() < usize::MAX,
        b@.len() < usize::MAX,
    ensures
        distance == edit_distance(a@, b@),
{
    let n = a.unicode_len();
    let m = b.unicode_len();
    let mut previous: Vec<usize> = Vec::new();
    let mut j: usize = 0;
    while j <= m
        invariant
            m == b@.len(),
            m < usize::MAX,
            j <= m + 1,
            previous@.len() == j,
            forall|k: int| 0 <= k < j ==> previous@[k] == edit_distance(Seq::empty(), b@.take(k)),
        decreases m + 1 - j,
    {
        previous.push(j);
        j = j + 1;
    }
    let mut i: usize = 0;
    assert(a@.take(0) =~= Seq::<char>::empty());
    while i < n
        invariant
            n == a@.len(),
            m == b@.len(),
            n < usize::MAX,
            m < usize::MAX,
            i <= n,
            previous@.len() == m + 1,
            forall|k: int| 0 <= k <= m ==> previous@[k] == edit_distance(a@.take(i as int), b@.take(k)),
        decreases n - i,
    {
        let ca = a.get_char(i);
        let mut current: Vec<usize> = Vec::new();
        current.push(i + 1);
        proof {
            assert(b@.take(0) =~= Seq::<char>::empty());
        }
        let mut k: usize = 0;
        while k < m
            invariant
                n == a@.len(),
                m == b@.len(),
                n < usize::MAX,
                m < usize::MAX,
                i < n,
                ca == a@[i as int],
                k <= m,
                previous@.len() == m + 1,
                forall|x: int| 0 <= x <= m ==> previous@[x] == edit_distance(a@.take(i as int), b@.take(x)),
                current@.len() == k + 1,
                forall|x: int| 0 <= x <= k ==> current@[x] == edit_distance(a@.take(i + 1), b@.take(x)),
            decreases m - k,
        {
            let cb = b.get_char(k);
            let cost: usize = if ca == cb {
                0
            } else {
                1
            };
            proof {
                lemma_edit_distance_bound(a@.take(i as int), b@.take(k as int));
                lemma_edit_distance_bound(a@.take(i as int), b@.take(k + 1));
                lemma_edit_distance_bound(a@.take(i + 1), b@.take(k as int));
            }
            let substitute = previous[k] + cost;
            let delete = previous[k + 1] + 1;
            let insert = current[k] + 1;
            let best = if substitute <= delete && substitute <= insert {
                substitute
            } else if delete <= insert {
                delete
            } else {
                insert
            };
            proof {
                let x = a@.take(i + 1);
                let y = b@.take(k + 1);
                assert(x.drop_last() =~= a@.take(i as int));
                assert(y.drop_last() =~= b@.take(k as int));
                assert(x.last() == ca);
                assert(y.last() == cb);
            }
            current.push(best);
            k = k + 1;
        }
        proof {
            assert(a@.take(i + 1).len() == i + 1);
        }
        previous = current;
        i = i + 1;
    }
    assert(a@.take(n as int) =~= a@);
    assert(b@.take(m as int) =~= b@);
    previous[m]
}

/// Whether command `k` is the one to suggest for `typed`: within two edits,
/// closer than every command before it, and no further than any after it.
pub open spec fn is_best_suggestion(typed: Seq<char>, k: int) -> bool {
    let names = command_names();
    &&& 0 <= k < names.len()
    &&& edit_distance(typed, names[k]) <= 2
    &&& forall|j: int| 0 <= j < k ==> edit_distance(typed, #[trigger] names[j]) > edit_distance(typed, names[k])
    &&& forall|j: int|
        k < j < names.len() ==> edit_distance(typed, #[trigger] names[j]) >= edit_distance(typed, names[k])
}

/// The command to suggest for a mistyped one: the closest within two edits,
/// the earliest of equally close ones; none when every command is further.
pub fn suggest(typed: &str) -> (suggestion: Option<&'static str>)
    requires
        typed@.len() < usize::MAX,
    ensures
        match suggestion {
            Some(name) => exists|k: int| is_best_suggestion(typed@, k) && command_names()[k] == name@,
            None => forall|j: int|
                0 <= j < command_names().len() ==> edit_distance(typed@, #[trigger] command_names()[j]) > 2,
        },
{
    let names = commands();
    let ghost all = command_names();
    let mut best: Option<(usize, usize)> = None;
    let mut i: usize = 0;
    while i < names.len()
        invariant
            typed@.len() < usize::MAX,
            names@.len() == all.len(),
            all == command_names(),
            forall|x: int| 0 <= x < names@.len() ==> #[trigger] names@[x]@ == all[x],
            i <= names@.len(),
            match best {
                Some((k, d)) => k < i && d == edit_distance(typed@, all[k as int]) && d <= 2 && (forall|j: int|
                    0 <= j < k ==> edit_distance(typed@, #[trigger] all[j]) > d) && (forall|j: int|
                    k < j < i ==> edit_distance(typed@, #[trigger] all[j]) >= d),
                None => forall|j: int| 0 <= j < i ==> edit_distance(typed@, #[trigger] all[j]) > 2,
            },
        decreases names.len() - i,
    {
        let name = names[i];
        assert(name@ == all[i as int]);
        assert(name@.len() < usize::MAX) by {
            reveal_strlit("cat");
            reveal_strlit("cd");
            reveal_strlit("clear");
            reveal_strlit("dev-sam");
            reveal_strlit("echo");
            reveal_strlit("help");
            reveal_strlit("history");
            reveal_strlit("ls");
            reveal_strlit("pwd");
            reveal_strlit("whoami");
        }
        let distance = levenshtein(typed, name);
        let better = match best {
            Some((_, d)) => distance < d,
            None => true,
        };
        if distance <= 2 && better {
            best = Some((i, distance));
        }
        i = i + 1;
    }
    match best {
        Some((k, _)) => Some(names[k]),
        None => None,
    }
}

/// Whether a launch asked for the touch build.
#[derive(Clone, Copy, PartialEq, Eq, Debug)]
pub struct Launch {
    pub touch: bool,
}

/// What a command prints, before it is coloured for the terminal.
#[derive(Clone, PartialEq, Eq, Debug)]
pub enum ShellOutput {
    /// Nothing.
    Empty,
    /// The list of commands.
    Help,
    /// A directory's entries, each with whether it is a directory.
    Listing(Vec<(String, bool)>),
    /// `ls: no such directory: <arg>`.
    NoSuchDirectory(String),
    /// `usage: cat <file>`.
    CatUsage,
    /// The contents of the file at this path.
    File(Vec<String>),
    /// `cat: no such file: <arg>`.
    NoSuchFile(String),
    /// `cd: not a directory: <arg>`.
    NotADirectory(String),
    /// Plain text.
    Text(String),
    /// The numbered command history.
    History(Vec<String>),
    /// `command not found`, with the command to suggest, if any.
    Unknown { command: String, suggestion: Option<&'static str> },
}

/// What running a command line does.
#[derive(Clone, PartialEq, Eq, Debug)]
pub enum CommandRunOutcome {
    RenderText(ShellOutput),
    Clear,
    LaunchApp(Launch),
}

/// A [`ShellOutput`] as values.
#[verifier::ext_equal]
pub enum Reply {
    Empty,
    Help,
    Listing(Seq<(Seq<char>, bool)>),
    NoSuchDirectory(Seq<char>),
    CatUsage,
    File(Seq<Seq<char>>),
    NoSuchFile(Seq<char>),
    NotADirectory(Seq<char>),
    Text(Seq<char>),
    History(Seq<Seq<char>>),
    Unknown { command: Seq<char>, suggestion: Option<Seq<char>> },
}

/// A [`CommandRunOutcome`] as values.
#[verifier::ext_equal]
pub enum Outcome {
    Render(Reply),
    Clear,
    Launch(bool),
}

impl View for ShellOutput {
    type V = Reply;

    open spec fn view(&self) -> Reply {
        match self {
            ShellOutput::Empty => Reply::Empty,
            ShellOutput::Help => Reply::Help,
            ShellOutput::Listing(entries) => Reply::Listing(entries_view(entries@)),
            ShellOutput::NoSuchDirectory(arg) => Reply::NoSuchDirectory(arg@),
            ShellOutput::CatUsage => Reply::CatUsage,
            ShellOutput::File(path) => Reply::File(texts_of(path@)),
            ShellOutput::NoSuchFile(arg) => Reply::NoSuchFile(arg@),
            ShellOutput::NotADirectory(arg) => Reply::NotADirectory(arg@),
            ShellOutput::Text(text) => Reply::Text(text@),
            ShellOutput::History(lines) => Reply::History(texts_of(lines@)),
            ShellOutput::Unknown { command, suggestion } => Reply::Unknown {
                command: command@,
                suggestion: match suggestion {
                    Some(s) => Some(s@),
                    None => None,
                },
            },
        }
    }
}

impl View for CommandRunOutcome {
    type V = Outcome;

    open spec fn view(&self) -> Outcome {
        match self {
            CommandRunOutcome::RenderText(output) => Outcome::Render(output@),
            CommandRunOutcome::Clear => Outcome::Clear,
            CommandRunOutcome::LaunchApp(launch) => Outcome::Launch(launch.touch),
        }
    }
}

/// The suggestion for `typed`, as the spec names it.
pub open spec fn suggestion_for(typed: Seq<char>) -> Option<Seq<char>> {
    if exists|k: int| is_best_suggestion(typed, k) {
        Some(command_names()[choose|k: int| is_best_suggestion(typed, k)])
    } else {
        None
    }
}

/// What running the trimmed, non-empty line `line` prints or does, in
/// `cwd` with `history` (the line included) and the given projects.
pub open spec fn outcome_of(
    cwd: Seq<Seq<char>>,
    history: Seq<Seq<char>>,
    projects: Seq<Seq<char>>,
    line: Seq<char>,
) -> Outcome {
    let all = words(line);
    let command = all[0];
    let args = all.skip(1);
    if command == "clear"@ {
        Outcome::Clear
    } else if command == "dev-sam"@ {
        Outcome::Launch(args.contains("--touch"@))
    } else if command == "help"@ {
        Outcome::Render(Reply::Help)
    } else if command == "ls"@ {
        let target = if args.len() == 0 {
            cwd
        } else {
            resolved(cwd, args[0])
        };
        match listing(target, projects) {
            Some(entries) => Outcome::Render(Reply::Listing(entries)),
            None => Outcome::Render(Reply::NoSuchDirectory(args[0])),
        }
    } else if command == "cat"@ {
        if args.len() == 0 {
            Outcome::Render(Reply::CatUsage)
        } else if is_file(resolved(cwd, args[0]), projects) {
            Outcome::Render(Reply::File(resolved(cwd, args[0])))
        } else {
            Outcome::Render(Reply::NoSuchFile(args[0]))
        }
    } else if command == "cd"@ {
        if args.len() > 0 && listing(resolved(cwd, args[0]), projects) is None {
            Outcome::Render(Reply::NotADirectory(args[0]))
        } else {
            Outcome::Render(Reply::Empty)
        }
    } else if command == "pwd"@ {
        Outcome::Render(Reply::Text(pwd_text(cwd)))
    } else if command == "echo"@ {
        Outcome::Render(Reply::Text(joined(args, " "@) + "\n"@))
    } else if command == "whoami"@ {
        Outcome::Render(Reply::Text("sam\n"@))
    } else if command == "history"@ {
        Outcome::Render(Reply::History(history))
    } else {
        Outcome::Render(Reply::Unknown { command, suggestion: suggestion_for(command) })
    }
}

/// Where `cd` leaves the shell for the trimmed, non-empty line `line`: the
/// directory it names when it names one (home when it names none); any
/// other command stays put.
pub open spec fn cwd_after(cwd: Seq<Seq<char>>, projects: Seq<Seq<char>>, line: Seq<char>) -> Seq<
    Seq<char>,
> {
    let all = words(line);
    let args = all.skip(1);
    if all[0] == "cd"@ {
        if args.len() == 0 {
            Seq::empty()
        } else if listing(resolved(cwd, args[0]), projects) is Some {
            resolved(cwd, args[0])
        } else {
            cwd
        }
    } else {
        cwd
    }
}

/// The shell: its working directory below `/home/sam`, the lines it has
/// run, and the projects its `projects` directory lists.
pub struct Shell {
    cwd_segments: Vec<String>,
    history: Vec<String>,
    projects: Vec<String>,
}

impl Shell {
    /// The working directory, as segments below the home directory.
    pub closed spec fn cwd(&self) -> Seq<Seq<char>> {
        texts_of(self.cwd_segments@)
    }

    /// The lines run so far, oldest first.
    pub closed spec fn lines(&self) -> Seq<Seq<char>> {
        texts_of(self.history@)
    }

    /// The projects the `projects` directory lists.
    pub closed spec fn project_names(&self) -> Seq<Seq<char>> {
        texts_of(self.projects@)
    }

    /// The working directory is a directory.
    pub closed spec fn well_formed(&self) -> bool {
        listing(texts_of(self.cwd_segments@), texts_of(self.projects@)) is Some
    }

    /// A shell in the home directory, with no history.
    pub fn new(projects: Vec<String>) -> (shell: Self)
        ensures
            shell.well_formed(),
            shell.cwd().len() == 0,
            shell.lines().len() == 0,
            shell.project_names() == texts_of(projects@),
    {
        let shell = Shell { cwd_segments: Vec::new(), history: Vec::new(), projects };
        assert(texts_of(shell.cwd_segments@) =~= Seq::<Seq<char>>::empty());
        shell
    }

    /// The lines run so far, oldest first.
    pub fn history(&self) -> (lines: &Vec<String>)
        ensures
            texts_of(lines@) == self.lines(),
    {
        &self.history
    }
}

/// The entries of the directory at `path`, if it is one.
fn fs_entries(path: &Vec<String>, projects: &Vec<String>) -> (entries: Option<Vec<(String, bool)>>)
    ensures
        match entries {
            Some(list) => listing(texts_of(path@), texts_of(projects@)) == Some(entries_view(list@)),
            None => listing(texts_of(path@), texts_of(projects@)) is None,
        },
{
    if path.len() == 0 {
        let list = vec![
            (String::from_str("projects/"), true),
            (String::from_str("about.txt"), false),
            (String::from_str("contact.txt"), false),
            (String::from_str("readme.md"), false),
            (String::from_str("resume.pdf"), false),
            (String::from_str("timeline.txt"), false),
        ];
        assert(entries_view(list@) =~= home_listing());
        return Some(list);
    }
    if path.len() == 1 && same_text(path[0].as_str(), "projects") {
        let mut list: Vec<(String, bool)> = Vec::new();
        let mut i: usize = 0;
        while i < projects.len()
            invariant
                i <= projects@.len(),
                list@.len() == i,
                entries_view(list@) == as_files(texts_of(projects@).take(i as int)),
            decreases projects.len() - i,
        {
            let name = projects[i].clone();
            let ghost texts = texts_of(projects@);
            assert(name@ == texts[i as int]);
            let ghost before = entries_view(list@);
            list.push((name, false));
            assert(entries_view(list@) =~= before.push((texts[i as int], false)));
            assert(as_files(texts.take(i + 1)) =~= as_files(texts.take(i as int)).push(
                (texts[i as int], false),
            ));
            i = i + 1;
        }
        assert(texts_of(projects@).take(projects@.len() as int) =~= texts_of(projects@));
        return Some(list);
    }
    None
}

/// Whether the path is a file of the virtual home.
fn is_file_path(path: &Vec<String>, projects: &Vec<String>) -> (file: bool)
    ensures
        file == is_file(texts_of(path@), texts_of(projects@)),
{
    if path.len() == 1 {
        let name = path[0].as_str();
        let home = same_text(name, "readme.md") || same_text(name, "about.txt") || same_text(
            name,
            "contact.txt",
        ) || same_text(name, "resume.pdf") || same_text(name, "timeline.txt");
        proof {
            let files = home_files();
            if home {
                assert(files.contains(name@));
            } else {
                assert(!files.contains(name@)) by {
                    if files.contains(name@) {
                        let k = choose|k: int| 0 <= k < files.len() && files[k] == name@;
                        assert(k == 0 || k == 1 || k == 2 || k == 3 || k == 4);
                    }
                }
            }
        }
        return home;
    }
    if path.len() == 2 && same_text(path[0].as_str(), "projects") {
        let name = path[1].as_str();
        let mut i: usize = 0;
        while i < projects.len()
            invariant
                i <= projects@.len(),
                path@.len() == 2,
                path@[0]@ == "projects"@,
                name@ == path@[1]@,
                forall|k: int| 0 <= k < i ==> projects@[k]@ != name@,
            decreases projects.len() - i,
        {
            if same_text(projects[i].as_str(), name) {
                assert(texts_of(projects@)[i as int] == name@);
                assert(texts_of(path@)[1] == name@);
                assert(texts_of(path@)[0] == path@[0]@);
                assert(texts_of(projects@).contains(texts_of(path@)[1]));
                return true;
            }
            i = i + 1;
        }
        proof {
            assert(!texts_of(projects@).contains(name@)) by {
                if texts_of(projects@).contains(name@) {
                    let k = choose|k: int| 0 <= k < projects@.len() && texts_of(projects@)[k] == name@;
                    assert(projects@[k]@ != name@);
                }
            }
        }
        return false;
    }
    false
}

/// Where a typed path leads from `cwd`.
fn resolve_path(cwd: &Vec<String>, arg: &str) -> (path: Vec<String>)
    ensures
        texts_of(path@) == resolved(texts_of(cwd@), arg@),
{
    let parts = split_at_char(arg, '/');
    let mut path: Vec<String> = Vec::new();
    let mut k: usize = 0;
    while k < cwd.len()
        invariant
            k <= cwd@.len(),
            path@.len() == k,
            texts_of(path@) == texts_of(cwd@).take(k as int),
        decreases cwd.len() - k,
    {
        let segment = cwd[k].clone();
        assert(segment@ == texts_of(cwd@)[k as int]);
        path.push(segment);
        assert(texts_of(path@) =~= texts_of(cwd@).take(k + 1));
        k = k + 1;
    }
    assert(texts_of(cwd@).take(cwd@.len() as int) =~= texts_of(cwd@));
    let ghost all = texts_of(parts@);
    let mut i: usize = 0;
    assert(all.take(0) =~= Seq::<Seq<char>>::empty());
    while i < parts.len()
        invariant
            all == texts_of(parts@),
            i <= parts@.len(),
            texts_of(path@) == walked(texts_of(cwd@), all.take(i as int)),
        decreases parts.len() - i,
    {
        let part = parts[i].as_str();
        assert(all.take(i + 1).drop_last() =~= all.take(i as int));
        assert(all.take(i + 1).last() == part@);
        if part.unicode_len() == 0 || same_text(part, ".") {
        } else if same_text(part, "..") {
            if path.len() > 0 {
                path.pop();
                assert(texts_of(path@) =~= walked(texts_of(cwd@), all.take(i + 1)));
            }
        } else {
            path.push(String::from_str(part));
            assert(texts_of(path@) =~= walked(texts_of(cwd@), all.take(i + 1)));
        }
        i = i + 1;
    }
    assert(all.take(parts@.len() as int) =~= all);
    path
}

/// `parts` joined with `sep` between consecutive parts.
fn join_with(parts: &Vec<String>, from: usize, sep: &str) -> (text: String)
    requires
        from <= parts@.len(),
    ensures
        text@ == joined(texts_of(parts@).skip(from as int), sep@),
{
    let ghost all = texts_of(parts@).skip(from as int);
    let mut text = String::new();
    let mut i: usize = from;
    assert(all.take(0) =~= Seq::<Seq<char>>::empty());
    while i < parts.len()
        invariant
            from <= i <= parts@.len(),
            all == texts_of(parts@).skip(from as int),
            text@ == joined(all.take(i - from), sep@),
        decreases parts.len() - i,
    {
        let ghost before = text@;
        if i > from {
            text.append(sep);
        }
        text.append(parts[i].as_str());
        proof {
            let next = all.take(i - from + 1);
            assert(next.drop_last() =~= all.take(i - from));
            assert(next.last() == parts@[i as int]@);
            if i == from {
                assert(next.len() == 1);
                assert(text@ =~= next[0]);
            } else {
                assert(text@ =~= joined(next.drop_last(), sep@) + sep@ + next.last());
            }
        }
        i = i + 1;
    }
    assert(all.take(parts@.len() - from) =~= all);
    text
}

impl Shell {
    /// Runs one command line: a blank line does nothing; any other is
    /// recorded in the history, trimmed, and its first word picks the
    /// command.
    pub fn execute(&mut self, line: &str) -> (outcome: CommandRunOutcome)
        requires
            old(self).well_formed(),
            line@.len() < usize::MAX,
        ensures
            final(self).well_formed(),
            ({
                let t = trimmed(line@);
                if t.len() == 0 {
                    &&& outcome@ == Outcome::Render(Reply::Empty)
                    &&& final(self).cwd() == old(self).cwd()
                    &&& final(self).lines() == old(self).lines()
                } else {
                    &&& final(self).lines() == old(self).lines().push(t)
                    &&& outcome@ == outcome_of(
                        old(self).cwd(),
                        final(self).lines(),
                        old(self).project_names(),
                        t,
                    )
                    &&& final(self).cwd() == cwd_after(old(self).cwd(), old(self).project_names(), t)
                }
            }),
            final(self).project_names() == old(self).project_names(),
    {
        let old_line = line;
        let line = trim(line);
        if line.as_str().unicode_len() == 0 {
            return CommandRunOutcome::RenderText(ShellOutput::Empty);
        }
        self.history.push(line.clone());
        assert(texts_of(self.history@) =~= old(self).lines().push(line@));
        let all = split_words(line.as_str());
        let ghost t = line@;
        let ghost args = texts_of(all@).skip(1);
        proof {
            lemma_trimmed_ends(old_line@);
            lemma_trimmed_len(old_line@);
            lemma_words_end(t);
            lemma_word_lengths(t);
            assert(texts_of(all@)[0] == all@[0]@);
            reveal_strlit("clear");
            reveal_strlit("dev-sam");
            reveal_strlit("help");
            reveal_strlit("ls");
            reveal_strlit("cat");
            reveal_strlit("cd");
            reveal_strlit("pwd");
            reveal_strlit("echo");
            reveal_strlit("whoami");
            reveal_strlit("history");
            assert("clear"@[0] == 'c' && "clear"@[1] == 'l');
            assert("dev-sam"@[0] == 'd' && "dev-sam"@[1] == 'e');
            assert("help"@[0] == 'h' && "help"@[1] == 'e');
            assert("ls"@[0] == 'l' && "ls"@[1] == 's');
            assert("cat"@[0] == 'c' && "cat"@[1] == 'a');
            assert("cd"@[0] == 'c' && "cd"@[1] == 'd');
            assert("pwd"@[0] == 'p' && "pwd"@[1] == 'w');
            assert("echo"@[0] == 'e' && "echo"@[1] == 'c');
            assert("whoami"@[0] == 'w' && "whoami"@[1] == 'h');
            assert("history"@[0] == 'h' && "history"@[1] == 'i');
        }
        let command = all[0].as_str();
        assert(command@ == words(t)[0]);
        assert(all@.len() > 1 ==> all@[1]@ == args[0]);
        if same_text(command, "clear") {
            return CommandRunOutcome::Clear;
        }
        if same_text(command, "dev-sam") {
            let touch = has_word(&all, 1, "--touch");
            return CommandRunOutcome::LaunchApp(Launch { touch });
        }
        if same_text(command, "help") {
            return CommandRunOutcome::RenderText(ShellOutput::Help);
        }
        if same_text(command, "ls") {
            let target = if all.len() == 1 {
                copy_strings(&self.cwd_segments)
            } else {
                resolve_path(&self.cwd_segments, all[1].as_str())
            };
            let ghost wanted = if args.len() == 0 {
                texts_of(old(self).cwd_segments@)
            } else {
                resolved(texts_of(old(self).cwd_segments@), args[0])
            };
            assert(texts_of(target@) == wanted);

            return match fs_entries(&target, &self.projects) {
                Some(list) => {
                    assert(listing(wanted, texts_of(self.projects@)) == Some(entries_view(list@)));
                    assert(outcome_of(old(self).cwd(), texts_of(self.history@), old(self).project_names(), t) == Outcome::Render(Reply::Listing(entries_view(list@))));
                    CommandRunOutcome::RenderText(ShellOutput::Listing(list))
                },
                None => {
                    assert(all@.len() > 1);
                    CommandRunOutcome::RenderText(ShellOutput::NoSuchDirectory(all[1].clone()))
                },
            };
        }
        if same_text(command, "cat") {
            if all.len() == 1 {
                return CommandRunOutcome::RenderText(ShellOutput::CatUsage);
            }
            let path = resolve_path(&self.cwd_segments, all[1].as_str());
            if is_file_path(&path, &self.projects) {
                return CommandRunOutcome::RenderText(ShellOutput::File(path));
            }
            return CommandRunOutcome::RenderText(ShellOutput::NoSuchFile(all[1].clone()));
        }
        if same_text(command, "cd") {
            if all.len() == 1 {
                self.cwd_segments = Vec::new();
                assert(texts_of(self.cwd_segments@) =~= Seq::<Seq<char>>::empty());
                return CommandRunOutcome::RenderText(ShellOutput::Empty);
            }
            let path = resolve_path(&self.cwd_segments, all[1].as_str());
            if fs_entries(&path, &self.projects).is_none() {
                return CommandRunOutcome::RenderText(ShellOutput::NotADirectory(all[1].clone()));
            }
            self.cwd_segments = path;
            return CommandRunOutcome::RenderText(ShellOutput::Empty);
        }
        if same_text(command, "pwd") {
            if self.cwd_segments.len() == 0 {
                return CommandRunOutcome::RenderText(ShellOutput::Text(String::from_str("/home/sam\n")));
            }
            let mut text = String::from_str("/home/sam/");
            text.append(join_with(&self.cwd_segments, 0, "/").as_str());
            text.append("\n");
            assert(texts_of(self.cwd_segments@).skip(0) =~= texts_of(self.cwd_segments@));
            return CommandRunOutcome::RenderText(ShellOutput::Text(text));
        }
        if same_text(command, "echo") {
            let mut text = join_with(&all, 1, " ");
            text.append("\n");
            return CommandRunOutcome::RenderText(ShellOutput::Text(text));
        }
        if same_text(command, "whoami") {
            return CommandRunOutcome::RenderText(ShellOutput::Text(String::from_str("sam\n")));
        }
        if same_text(command, "history") {
            return CommandRunOutcome::RenderText(ShellOutput::History(copy_strings(&self.history)));
        }
        let suggestion = suggest(command);
        proof {
            lemma_suggestion_matches(command@, suggestion);
        }
        CommandRunOutcome::RenderText(
            ShellOutput::Unknown { command: String::from_str(command), suggestion },
        )
    }
}

/// Whether `word` is among `strings` from index `from` on.
fn has_word(strings: &Vec<String>, from: usize, word: &str) -> (found: bool)
    requires
        from <= strings@.len(),
    ensures
        found == texts_of(strings@).skip(from as int).contains(word@),
{
    let ghost rest = texts_of(strings@).skip(from as int);
    let mut i: usize = from;
    while i < strings.len()
        invariant
            from <= i <= strings@.len(),
            rest == texts_of(strings@).skip(from as int),
            forall|k: int| from <= k < i ==> strings@[k]@ != word@,
        decreases strings.len() - i,
    {
        if same_text(strings[i].as_str(), word) {
            assert(rest[i - from] == word@);
            return true;
        }
        i = i + 1;
    }
    assert(!rest.contains(word@)) by {
        if rest.contains(word@) {
            let k = choose|k: int| 0 <= k < rest.len() && rest[k] == word@;
            assert(strings@[k + from]@ != word@);
        }
    }
    false
}

/// At most one command is the one to suggest.
proof fn lemma_best_unique(typed: Seq<char>, a: int, b: int)
    requires
        is_best_suggestion(typed, a),
        is_best_suggestion(typed, b),
    ensures
        a == b,
{
    let names = command_names();
    if a < b {
        assert(edit_distance(typed, names[a]) > edit_distance(typed, names[b]));
    }
    if b < a {
        assert(edit_distance(typed, names[b]) > edit_distance(typed, names[a]));
    }
}

/// What `suggest` returns is the suggestion the spec names.
proof fn lemma_suggestion_matches(typed: Seq<char>, suggestion: Option<&'static str>)
    requires
        match suggestion {
            Some(name) => exists|k: int| is_best_suggestion(typed, k) && command_names()[k] == name@,
            None => forall|j: int|
                0 <= j < command_names().len() ==> edit_distance(typed, #[trigger] command_names()[j]) > 2,
        },
    ensures
        suggestion_for(typed) == match suggestion {
            Some(name) => Some(name@),
            None => None,
        },
{
    match suggestion {
        Some(name) => {
            let k = choose|k: int| is_best_suggestion(typed, k) && command_names()[k] == name@;
            let c = choose|k: int| is_best_suggestion(typed, k);
            lemma_best_unique(typed, k, c);
        },
        None => {
            if exists|k: int| is_best_suggestion(typed, k) {
                let c = choose|k: int| is_best_suggestion(typed, k);
                assert(edit_distance(typed, command_names()[c]) > 2);
            }
        },
    }
}


/// Going into a directory and back up returns to where the walk started.
pub proof fn lemma_down_then_up(cwd: Seq<Seq<char>>, name: Seq<char>)
    requires
        name.len() > 0,
        name != "."@,
        name != ".."@,
    ensures
        walked(cwd, seq![name, ".."@]) == cwd,
{
    let parts = seq![name, ".."@];
    let one = seq![name];
    assert(parts.drop_last() =~= one);
    assert(parts.last() == ".."@);
    assert(one.drop_last() =~= Seq::<Seq<char>>::empty());
    assert(one.last() == name);
    assert(walked(cwd, one.drop_last()) == cwd);
    assert(step_path(cwd, name) == cwd.push(name));
    assert(walked(cwd, one) == cwd.push(name));
    assert(".."@.len() == 2 && "."@.len() == 1) by {
        reveal_strlit("..");
        reveal_strlit(".");
    }
    assert(step_path(cwd.push(name), ".."@) == cwd.push(name).drop_last());
    assert(cwd.push(name).drop_last() =~= cwd);
}

/// The directory a completion's typed base leads to from `cwd`, if every
/// segment of it can be followed: `.` and empty segments stay, `..` goes up,
/// and `projects` goes down where the directory has one; any other segment
/// ends the completion.
pub open spec fn completion_base(
    cwd: Seq<Seq<char>>,
    parts: Seq<Seq<char>>,
    projects: Seq<Seq<char>>,
) -> Option<Seq<Seq<char>>>
    decreases parts.len(),
{
    if parts.len() == 0 {
        Some(cwd)
    } else {
        match completion_base(cwd, parts.drop_last(), projects) {
            None => None,
            Some(path) => {
                let part = parts.last();
                if part.len() == 0 || part == "."@ {
                    Some(path)
                } else if part == ".."@ {
                    Some(
                        if path.len() > 0 {
                            path.drop_last()
                        } else {
                            path
                        },
                    )
                } else if part == "projects"@ && listing(path, projects) is Some {
                    Some(path.push(part))
                } else {
                    None
                }
            },
        }
    }
}

/// The entries whose name starts with `segment`, each written after `base`.
pub open spec fn matching_entries(
    entries: Seq<(Seq<char>, bool)>,
    base: Seq<char>,
    segment: Seq<char>,
) -> Seq<Seq<char>> {
    entries.filter(|entry: (Seq<char>, bool)| has_prefix(entry.0, segment)).map_values(
        |entry: (Seq<char>, bool)| base + entry.0,
    )
}

/// The completions of a typed path: split after its last `/` into a base and
/// the segment being typed, the entries of the directory the base leads to
/// whose names start with the segment, each written after the base.
pub open spec fn path_completions(cwd: Seq<Seq<char>>, projects: Seq<Seq<char>>, word: Seq<char>) -> Seq<
    Seq<char>,
> {
    let cut = match word.index_of_last('/') {
        Some(slash) => slash + 1,
        None => 0,
    };
    let base = word.take(cut);
    let segment = word.skip(cut);
    match completion_base(cwd, pieces(base, '/'), projects) {
        None => Seq::empty(),
        Some(path) => match listing(path, projects) {
            None => Seq::empty(),
            Some(entries) => matching_entries(entries, base, segment),
        },
    }
}

/// The index just past the last `c` in `text`, or 0 when there is none.
fn cut_after_last(text: &str, c: char) -> (cut: usize)
    ensures
        cut == match text@.index_of_last(c) {
            Some(i) => i + 1,
            None => 0,
        },
{
    let mut i = text.unicode_len();
    while i > 0
        invariant
            i <= text@.len(),
            forall|j: int| i <= j < text@.len() ==> text@[j] != c,
        decreases i,
    {
        if text.get_char(i - 1) == c {
            proof {
                text@.index_of_last_ensures(c);
                assert(text@.contains(c));
                let last = text@.index_of_last(c).unwrap();
                if last > i - 1 {
                    assert(text@[last] != c);
                }
            }
            return i;
        }
        i = i - 1;
    }
    proof {
        text@.index_of_last_ensures(c);
        if text@.contains(c) {
            let k = choose|k: int| 0 <= k < text@.len() && text@[k] == c;
            assert(text@[k] != c);
        }
    }
    0
}

/// Once a completion's base cannot be followed, no longer base can be.
proof fn lemma_completion_base_stays_none(
    cwd: Seq<Seq<char>>,
    parts: Seq<Seq<char>>,
    from: int,
    to: int,
    projects: Seq<Seq<char>>,
)
    requires
        0 <= from <= to <= parts.len(),
        completion_base(cwd, parts.take(from), projects) is None,
    ensures
        completion_base(cwd, parts.take(to), projects) is None,
    decreases to - from,
{
    if from < to {
        assert(parts.take(from + 1).drop_last() =~= parts.take(from));
        lemma_completion_base_stays_none(cwd, parts, from + 1, to, projects);
    }
}

impl Shell {
    /// The completions of a typed path, from the working directory.
    pub fn complete_path(&self, word: &str) -> (completions: Vec<String>)
        ensures
            texts_of(completions@) == path_completions(self.cwd(), self.project_names(), word@),
    {
        let cut = cut_after_last(word, '/');
        let n = word.unicode_len();
        proof {
            word@.index_of_last_ensures('/');
        }
        let base = word.substring_char(0, cut);
        let segment = word.substring_char(cut, n);
        assert(base@ =~= word@.take(cut as int));
        assert(segment@ =~= word@.skip(cut as int));
        let parts = split_at_char(base, '/');
        let ghost all = texts_of(parts@);
        let mut path = copy_strings(&self.cwd_segments);
        let mut i: usize = 0;
        assert(all.take(0) =~= Seq::<Seq<char>>::empty());
        while i < parts.len()
            invariant
                all == texts_of(parts@),
                all == pieces(base@, '/'),
                base@ == word@.take(cut as int),
                cut == match word@.index_of_last('/') {
                    Some(slash) => slash + 1,
                    None => 0,
                },
                i <= parts@.len(),
                completion_base(self.cwd(), all.take(i as int), self.project_names()) == Some(
                    texts_of(path@),
                ),
            decreases parts.len() - i,
        {
            let part = parts[i].as_str();
            assert(all.take(i + 1).drop_last() =~= all.take(i as int));
            assert(all.take(i + 1).last() == part@);
            let ghost before = texts_of(path@);
            if part.unicode_len() == 0 || same_text(part, ".") {
            } else if same_text(part, "..") {
                if path.len() > 0 {
                    path.pop();
                    assert(texts_of(path@) =~= before.drop_last());
                }
            } else if same_text(part, "projects") && fs_entries(&path, &self.projects).is_some() {
                path.push(String::from_str("projects"));
                assert(texts_of(path@) =~= before.push("projects"@));
            } else {
                proof {
                    assert(completion_base(self.cwd(), all.take(i + 1), self.project_names()) is None);
                    lemma_completion_base_stays_none(
                        self.cwd(),
                        all,
                        i + 1,
                        all.len() as int,
                        self.project_names(),
                    );
                    assert(all.take(all.len() as int) =~= all);
                }
                return Vec::new();
            }
            i = i + 1;
        }
        assert(all.take(all.len() as int) =~= all);
        let entries = match fs_entries(&path, &self.projects) {
            Some(list) => list,
            None => {
                return Vec::new();
            },
        };
        let ghost shown = entries_view(entries@);
        let ghost keep = |entry: (Seq<char>, bool)| has_prefix(entry.0, segment@);
        let ghost write = |entry: (Seq<char>, bool)| base@ + entry.0;
        let mut completions: Vec<String> = Vec::new();
        let mut k: usize = 0;
        assert(shown.take(0) =~= Seq::<(Seq<char>, bool)>::empty());
        assert(shown.take(0).filter(keep) =~= Seq::<(Seq<char>, bool)>::empty());
        while k < entries.len()
            invariant
                shown == entries_view(entries@),
                keep == (|entry: (Seq<char>, bool)| has_prefix(entry.0, segment@)),
                write == (|entry: (Seq<char>, bool)| base@ + entry.0),
                k <= entries@.len(),
                texts_of(completions@) == shown.take(k as int).filter(keep).map_values(write),
            decreases entries.len() - k,
        {
            let name = entries[k].0.as_str();
            let ghost e = shown[k as int];
            assert(e.0 == name@);
            proof {
                assert(shown.take(k + 1) =~= shown.take(k as int).push(e));
                shown.take(k as int).lemma_filter_push(e, keep);
            }
            let ghost before = completions@;
            if starts_with(name, segment) {
                let mut full = String::from_str(base);
                full.append(name);
                assert(keep(e));
                assert(full@ == write(e));
                let ghost kept = shown.take(k as int).filter(keep);
                assert(shown.take(k + 1).filter(keep) == kept.push(e));
                assert(kept.push(e).map_values(write) =~= kept.map_values(write).push(write(e)));
                completions.push(full);
                assert(texts_of(completions@) =~= shown.take(k + 1).filter(keep).map_values(write));
            } else {
                assert(texts_of(completions@) =~= shown.take(k + 1).filter(keep).map_values(write));
            }
            k = k + 1;
        }
        assert(shown.take(entries@.len() as int) =~= shown);
        completions
    }
}


/// The commands whose names start with `word`, in order.
pub open spec fn commands_starting(word: Seq<char>) -> Seq<Seq<char>> {
    command_names().filter(|name: Seq<char>| has_prefix(name, word))
}

/// What a line before its last space and the word after it are: the
/// line's leading white space trimmed, then split at its last space, the
/// word losing its own leading white space; all of it is the word when
/// there is no space.
pub open spec fn split_last_word(line: Seq<char>) -> (Seq<char>, Seq<char>) {
    let t = trimmed_start(line);
    match t.index_of_last(' ') {
        Some(space) => (t.take(space), trimmed_start(t.skip(space + 1))),
        None => (Seq::empty(), t),
    }
}

/// The completions offered for `line`: nothing for an empty last word;
/// command names for the first word; paths after `ls`, `cd` or `cat`;
/// nothing after anything else.
pub open spec fn line_completions(cwd: Seq<Seq<char>>, projects: Seq<Seq<char>>, line: Seq<char>) -> Seq<
    Seq<char>,
> {
    let (before, word) = split_last_word(line);
    if word.len() == 0 {
        Seq::empty()
    } else if is_blank(before) {
        commands_starting(word)
    } else {
        let first = words(before)[0];
        if first == "ls"@ || first == "cd"@ || first == "cat"@ {
            path_completions(cwd, projects, word)
        } else {
            Seq::empty()
        }
    }
}

/// The commands whose names start with `word`, in order.
fn matching_commands(word: &str) -> (names: Vec<String>)
    ensures
        texts_of(names@) == commands_starting(word@),
{
    let all = commands();
    let ghost keep = |name: Seq<char>| has_prefix(name, word@);
    let mut names: Vec<String> = Vec::new();
    let mut i: usize = 0;
    assert(command_names().take(0).filter(keep) =~= Seq::<Seq<char>>::empty());
    while i < all.len()
        invariant
            all@.len() == command_names().len(),
            forall|x: int| 0 <= x < all@.len() ==> #[trigger] all@[x]@ == command_names()[x],
            keep == (|name: Seq<char>| has_prefix(name, word@)),
            i <= all@.len(),
            texts_of(names@) == command_names().take(i as int).filter(keep),
        decreases all.len() - i,
    {
        let name = all[i];
        proof {
            assert(command_names().take(i + 1) =~= command_names().take(i as int).push(name@));
            command_names().take(i as int).lemma_filter_push(name@, keep);
        }
        if starts_with(name, word) {
            names.push(String::from_str(name));
        }
        assert(texts_of(names@) =~= command_names().take(i + 1).filter(keep));
        i = i + 1;
    }
    assert(command_names().take(all@.len() as int) =~= command_names());
    names
}

impl Shell {
    /// The completions offered for the line being typed, one per line.
    pub fn tab_complete(&self, line: &str) -> (offered: String)
        ensures
            offered@ == joined(line_completions(self.cwd(), self.project_names(), line@), "\n"@),
    {
        let candidates = self.completions(line);
        assert(texts_of(candidates@).skip(0) =~= texts_of(candidates@));
        join_with(&candidates, 0, "\n")
    }
}

impl Shell {
    /// The completions offered for the line being typed.
    pub fn completions(&self, line: &str) -> (offered: Vec<String>)
        ensures
            texts_of(offered@) == line_completions(self.cwd(), self.project_names(), line@),
    {
        let t = trim_start(line);
        let cut = cut_after_last(t.as_str(), ' ');
        let n = t.as_str().unicode_len();
        proof {
            t@.index_of_last_ensures(' ');
        }
        let before: String;
        let word: String;
        if cut == 0 {
            before = String::new();
            word = t.clone();
        } else {
            before = String::from_str(t.as_str().substring_char(0, cut - 1));
            let tail = t.as_str().substring_char(cut, n);
            assert(tail@ =~= t@.skip(cut as int));
            word = trim_start(tail);
        }
        assert(before@ =~= split_last_word(line@).0);
        assert(word@ =~= split_last_word(line@).1);
        if word.as_str().unicode_len() == 0 {
            let none: Vec<String> = Vec::new();
            assert(texts_of(none@) =~= Seq::<Seq<char>>::empty());
            return none;
        }
        if blank(before.as_str()) {
            return matching_commands(word.as_str());
        }
        proof {
            lemma_words_of_nonblank(before@);
        }
        let first_words = split_words(before.as_str());
        let first = first_words[0].as_str();
        assert(first@ == words(before@)[0]);
        if same_text(first, "ls") || same_text(first, "cd") || same_text(first, "cat") {
            self.complete_path(word.as_str())
        } else {
            let none: Vec<String> = Vec::new();
            assert(texts_of(none@) =~= Seq::<Seq<char>>::empty());
            none
        }
    }
}

/// A key the prompt reacts to.
#[derive(Clone, Copy, PartialEq, Eq, Debug)]
pub enum ShellKey {
    Enter,
    Tab,
    Up,
    Down,
    Left,
    Right,
    Home,
    End,
    Backspace,
    Delete,
    Char(char),
    /// A letter pressed with Control.
    Control(char),
    /// Any other key.
    Other,
}

/// What the terminal is to show after a key at the prompt.
#[derive(Clone, PartialEq, Eq, Debug)]
pub enum PromptReply {
    /// Nothing.
    Nothing,
    /// The prompt row, redrawn with the line and the cursor.
    Prompt,
    /// `^C`, then a fresh prompt.
    Interrupted,
    /// A cleared screen, then the prompt row.
    ClearScreen,
    /// The line was run.
    Submitted(CommandRunOutcome),
    /// Several completions, listed above the prompt row.
    Candidates(Vec<String>),
}

/// The editable line at the prompt: the text, the cursor (in characters),
/// and where the arrow keys are in the shell's history (its length while a
/// fresh line is being typed).
pub struct LineEditor {
    pub line: String,
    pub cursor: usize,
    pub history_index: usize,
}

/// `line` with `c` inserted before character `at`.
pub open spec fn inserted_at(line: Seq<char>, at: int, c: char) -> Seq<char> {
    line.take(at).push(c) + line.skip(at)
}

/// `line` without character `at`.
pub open spec fn removed_at(line: Seq<char>, at: int) -> Seq<char> {
    line.take(at) + line.skip(at + 1)
}

/// The line a single completion leaves: the line up to its last space, the
/// completion, and a space unless the completion is a directory.
pub open spec fn completed_line(line: Seq<char>, only: Seq<char>) -> Seq<char> {
    let start = match line.index_of_last(' ') {
        Some(space) => space + 1,
        None => 0,
    };
    line.take(start) + only + if only.len() > 0 && only.last() == '/' {
        Seq::<char>::empty()
    } else {
        " "@
    }
}

impl LineEditor {
    /// The editor holds together: the cursor is inside the line.
    pub open spec fn well_formed(&self) -> bool {
        self.cursor <= self.line@.len()
    }

    /// An empty line, the cursor at its start.
    pub fn new() -> (editor: Self)
        ensures
            editor.well_formed(),
            editor.line@.len() == 0,
            editor.cursor == 0,
            editor.history_index == 0,
    {
        LineEditor { line: String::new(), cursor: 0, history_index: 0 }
    }

    /// Replaces the line, the cursor at its end.
    pub fn set_line(&mut self, line: String)
        ensures
            final(self).line@ == line@,
            final(self).cursor == line@.len(),
            final(self).history_index == old(self).history_index,
    {
        self.cursor = line.as_str().unicode_len();
        self.line = line;
    }

    /// The line shown when the prompt opens: `dev-sam`, with the touch flag
    /// for a touch host, ready to be submitted.
    pub fn opening_line(&mut self, touch: bool)
        ensures
            final(self).line@ == if touch {
                "dev-sam --touch"@
            } else {
                "dev-sam"@
            },
            final(self).cursor == final(self).line@.len(),
            final(self).history_index == old(self).history_index,
    {
        if touch {
            self.set_line(String::from_str("dev-sam --touch"));
        } else {
            self.set_line(String::from_str("dev-sam"));
        }
    }

    /// Clears the line after the app exits back to the prompt.
    pub fn after_dev_sam_app_exit(&mut self)
        ensures
            final(self).line@.len() == 0,
            final(self).cursor == 0,
            final(self).history_index == old(self).history_index,
    {
        self.set_line(String::new());
    }

    /// Feeds one key pressed with Control: `c` drops the line, `l` clears
    /// the screen keeping the line, `a` and `e` jump to the start and end,
    /// `u` deletes what is before the cursor.
    pub fn handle_control_key(&mut self, letter: char) -> (reply: PromptReply)
        requires
            old(self).well_formed(),
        ensures
            final(self).well_formed(),
            final(self).history_index == old(self).history_index,
            letter == 'c' ==> reply == PromptReply::Interrupted && final(self).line@.len() == 0
                && final(self).cursor == 0,
            letter == 'l' ==> reply == PromptReply::ClearScreen && final(self).line@ == old(
                self,
            ).line@ && final(self).cursor == old(self).cursor,
            letter == 'a' ==> reply == PromptReply::Prompt && final(self).line@ == old(self).line@
                && final(self).cursor == 0,
            letter == 'e' ==> reply == PromptReply::Prompt && final(self).line@ == old(self).line@
                && final(self).cursor == old(self).line@.len(),
            letter == 'u' ==> reply == PromptReply::Prompt && final(self).line@ == old(self).line@.skip(
                old(self).cursor as int,
            ) && final(self).cursor == 0,
            !(letter == 'c' || letter == 'l' || letter == 'a' || letter == 'e' || letter == 'u')
                ==> reply == PromptReply::Nothing && final(self).line@ == old(self).line@
                && final(self).cursor == old(self).cursor,
    {
        if letter == 'c' {
            self.set_line(String::new());
            PromptReply::Interrupted
        } else if letter == 'l' {
            PromptReply::ClearScreen
        } else if letter == 'a' {
            self.cursor = 0;
            PromptReply::Prompt
        } else if letter == 'e' {
            self.cursor = self.line.as_str().unicode_len();
            PromptReply::Prompt
        } else if letter == 'u' {
            let n = self.line.as_str().unicode_len();
            let rest = String::from_str(self.line.as_str().substring_char(self.cursor, n));
            assert(rest@ =~= old(self).line@.skip(old(self).cursor as int));
            self.line = rest;
            self.cursor = 0;
            PromptReply::Prompt
        } else {
            PromptReply::Nothing
        }
    }

    /// Moves through the shell's history: one entry older, or one newer (a
    /// fresh line past the newest), showing that entry.
    pub fn step_history(&mut self, shell: &Shell, older: bool)
        ensures
            final(self).history_index == if older {
                if old(self).history_index > 0 {
                    (old(self).history_index - 1) as nat
                } else {
                    0
                }
            } else {
                if old(self).history_index + 1 <= shell.lines().len() {
                    (old(self).history_index + 1) as nat
                } else {
                    shell.lines().len()
                }
            },
            final(self).line@ == if final(self).history_index < shell.lines().len() {
                shell.lines()[final(self).history_index as int]
            } else {
                Seq::<char>::empty()
            },
            final(self).cursor == final(self).line@.len(),
            final(self).well_formed(),
    {
        let history = shell.history();
        let next = if older {
            if self.history_index > 0 {
                self.history_index - 1
            } else {
                0
            }
        } else if self.history_index < history.len() {
            self.history_index + 1
        } else {
            history.len()
        };
        self.history_index = next;
        if next < history.len() {
            let entry = history[next].clone();
            assert(entry@ == texts_of(history@)[next as int]);
            self.set_line(entry);
        } else {
            self.set_line(String::new());
        }
    }

    /// Feeds one key. Enter runs the line in the shell, Tab completes it,
    /// the arrows move through the line and the history, and the editing
    /// keys change the line at the cursor.
    pub fn handle_key(&mut self, key: ShellKey, shell: &mut Shell) -> (reply: PromptReply)
        requires
            old(self).well_formed(),
            old(shell).well_formed(),
            old(self).line@.len() < usize::MAX,
        ensures
            final(self).well_formed(),
            final(shell).well_formed(),
            key is Char ==> reply == PromptReply::Prompt && final(self).line@ == inserted_at(
                old(self).line@,
                old(self).cursor as int,
                key->Char_0,
            ) && final(self).cursor == old(self).cursor + 1,
            key is Backspace ==> reply == PromptReply::Prompt && if old(self).cursor > 0 {
                final(self).line@ == removed_at(old(self).line@, old(self).cursor - 1)
                    && final(self).cursor == old(self).cursor - 1
            } else {
                final(self).line@ == old(self).line@ && final(self).cursor == 0
            },
            key is Delete ==> reply == PromptReply::Prompt && final(self).cursor == old(self).cursor
                && final(self).line@ == if old(self).cursor < old(self).line@.len() {
                removed_at(old(self).line@, old(self).cursor as int)
            } else {
                old(self).line@
            },
            key is Left ==> reply == PromptReply::Prompt && final(self).line@ == old(self).line@
                && final(self).cursor == if old(self).cursor > 0 {
                old(self).cursor - 1
            } else {
                0
            },
            key is Right ==> reply == PromptReply::Prompt && final(self).line@ == old(self).line@
                && final(self).cursor == if old(self).cursor < old(self).line@.len() {
                old(self).cursor + 1
            } else {
                old(self).cursor as int
            },
            key is Home ==> reply == PromptReply::Prompt && final(self).line@ == old(self).line@
                && final(self).cursor == 0,
            key is End ==> reply == PromptReply::Prompt && final(self).line@ == old(self).line@
                && final(self).cursor == old(self).line@.len(),
            key is Enter ==> final(self).line@.len() == 0 && final(self).cursor == 0
                && final(self).history_index == final(shell).lines().len() && reply is Submitted,
            key is Tab ==> {
                let offered = line_completions(
                    old(shell).cwd(),
                    old(shell).project_names(),
                    old(self).line@,
                );
                &&& offered.len() == 0 ==> reply == PromptReply::Nothing && final(self).line@
                    == old(self).line@
                &&& offered.len() == 1 ==> reply == PromptReply::Prompt && final(self).line@
                    == completed_line(old(self).line@, offered[0]) && final(self).cursor
                    == final(self).line@.len()
                &&& offered.len() > 1 ==> (reply matches PromptReply::Candidates(list) && texts_of(
                    list@,
                ) == offered) && final(self).line@ == old(self).line@
            },
            key is Other ==> reply == PromptReply::Nothing && final(self).line@ == old(self).line@,
    {
        let n = self.line.as_str().unicode_len();
        match key {
            ShellKey::Enter => {
                let mut line = String::new();
                std::mem::swap(&mut line, &mut self.line);
                self.cursor = 0;
                let outcome = shell.execute(line.as_str());
                self.history_index = shell.history().len();
                PromptReply::Submitted(outcome)
            },
            ShellKey::Tab => {
                let offered = shell.completions(self.line.as_str());
                if offered.len() == 0 {
                    PromptReply::Nothing
                } else if offered.len() == 1 {
                    let cut = cut_after_last(self.line.as_str(), ' ');
                    proof {
                        self.line@.index_of_last_ensures(' ');
                    }
                    let only = offered[0].as_str();
                    assert(only@ == texts_of(offered@)[0]);
                    let mut next = String::from_str(self.line.as_str().substring_char(0, cut));
                    next.append(only);
                    let m = only.unicode_len();
                    if m > 0 && only.get_char(m - 1) == '/' {
                    } else {
                        next.append(" ");
                    }
                    assert(next@ =~= completed_line(old(self).line@, only@));
                    self.set_line(next);
                    PromptReply::Prompt
                } else {
                    PromptReply::Candidates(offered)
                }
            },
            ShellKey::Up => {
                self.step_history(shell, true);
                PromptReply::Prompt
            },
            ShellKey::Down => {
                self.step_history(shell, false);
                PromptReply::Prompt
            },
            ShellKey::Left => {
                if self.cursor > 0 {
                    self.cursor = self.cursor - 1;
                }
                PromptReply::Prompt
            },
            ShellKey::Right => {
                if self.cursor < n {
                    self.cursor = self.cursor + 1;
                }
                PromptReply::Prompt
            },
            ShellKey::Home => {
                self.cursor = 0;
                PromptReply::Prompt
            },
            ShellKey::End => {
                self.cursor = n;
                PromptReply::Prompt
            },
            ShellKey::Backspace => {
                if self.cursor > 0 {
                    let mut next = String::from_str(
                        self.line.as_str().substring_char(0, self.cursor - 1),
                    );
                    next.append(self.line.as_str().substring_char(self.cursor, n));
                    assert(next@ =~= removed_at(old(self).line@, old(self).cursor - 1));
                    self.line = next;
                    self.cursor = self.cursor - 1;
                }
                PromptReply::Prompt
            },
            ShellKey::Delete => {
                if self.cursor < n {
                    let mut next = String::from_str(self.line.as_str().substring_char(0, self.cursor));
                    next.append(self.line.as_str().substring_char(self.cursor + 1, n));
                    assert(next@ =~= removed_at(old(self).line@, old(self).cursor as int));
                    self.line = next;
                }
                PromptReply::Prompt
            },
            ShellKey::Char(c) => {
                let mut next = String::from_str(self.line.as_str().substring_char(0, self.cursor));
                crate::text::push_char(&mut next, c);
                next.append(self.line.as_str().substring_char(self.cursor, n));
                assert(next@ =~= inserted_at(old(self).line@, old(self).cursor as int, c));
                self.line = next;
                self.cursor = self.cursor + 1;
                PromptReply::Prompt
            },
            ShellKey::Control(letter) => self.handle_control_key(letter),
            ShellKey::Other => PromptReply::Nothing,
        }
    }
}

} // verus!
