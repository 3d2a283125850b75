//! Where the data directory is looked for, and the settings of the screen.

use vstd::prelude::*;

use crate::pick;
use crate::store::paths;
use crate::store::paths::join_path;
use crate::text;
use crate::text::{blank, chars_of, same_string, string_of, strip_prefix, trim, trim_string};

verus! {

/// How many notes are listed at first where nothing else is set.
pub const DEFAULT_RECENT_NOTES: usize = 30;

/// How many tasks that are done are shown of a project where nothing else is set.
pub const DEFAULT_DONE_LIMIT: usize = 5;

/// What a configuration file holds.
#[derive(Debug)]
pub struct ConfigFile {
    pub data_dir: Option<String>,
    pub recent_notes: Option<usize>,
    pub project_done_limit: Option<usize>,
}

/// The data directory and the settings.
#[derive(Debug)]
pub struct Config {
    pub data_dir: String,
    /// Where the data directory was set.
    pub source: String,
    /// How many notes are listed at first; 0 for all.
    pub recent_notes: usize,
    /// How many tasks that are done are shown of a project; 0 for all.
    pub project_done_limit: usize,
}

/// What a configuration holds.
#[verifier::ext_equal]
pub struct ConfigView {
    pub data_dir: Seq<char>,
    pub source: Seq<char>,
    pub recent_notes: usize,
    pub project_done_limit: usize,
}

impl View for Config {
    type V = ConfigView;

    open spec fn view(&self) -> ConfigView {
        ConfigView {
            data_dir: self.data_dir@,
            source: self.source@,
            recent_notes: self.recent_notes,
            project_done_limit: self.project_done_limit,
        }
    }
}

impl Clone for Config {
    fn clone(&self) -> (r: Config)
        ensures
            r@ == self@,
    {
        Config {
            data_dir: self.data_dir.clone(),
            source: self.source.clone(),
            recent_notes: self.recent_notes,
            project_done_limit: self.project_done_limit,
        }
    }
}

/// What a list of configurations holds.
pub open spec fn config_views(v: Seq<Config>) -> Seq<ConfigView> {
    v.map_values(|c: Config| c@)
}

// ------------------------------------------------------------------- home paths

/// `home_dir` of the `dirs` crate, as a text. What it returns depends on the environment.
#[verifier::external_body]
fn home_dir() -> (r: Option<String>)
{
    dirs::home_dir().map(|p| p.to_string_lossy().into_owned())
}

/// `config_dir` of the `dirs` crate, as a text. What it returns depends on the environment.
#[verifier::external_body]
fn config_dir() -> (r: Option<String>)
{
    dirs::config_dir().map(|p| p.to_string_lossy().into_owned())
}

/// What an optional text holds.
pub open spec fn opt(s: Option<String>) -> Option<Seq<char>> {
    match s {
        Some(t) => Some(t@),
        None => None,
    }
}

/// What an optional reference to a text holds.
pub open spec fn opt_ref(s: Option<&str>) -> Option<Seq<char>> {
    match s {
        Some(t) => Some(t@),
        None => None,
    }
}

/// A path with a tilde in front replaced by the home directory, if there is one. White
/// space around it is dropped.
pub open spec fn expanded(raw: Seq<char>, home: Option<Seq<char>>) -> Seq<char> {
    let t = text::trimmed(raw);
    if t == seq!['~'] && home is Some {
        home->0
    } else if text::begins(t, seq!['~', '/']) && home is Some {
        paths::joined_path(home->0, t.skip(2))
    } else {
        t
    }
}

/// Replaces a tilde in front of a path by a home directory.
pub fn expand_tilde_with(raw: &str, home: Option<&str>) -> (r: String)
    ensures
        r@ == expanded(raw@, opt_ref(home)),
{
    let v: Vec<char> = chars_of(raw);
    let t = trim(v.as_slice());
    match home {
        Some(h) => {
            if t.len() == 1 && t[0] == '~' {
                assert(t@ == seq!['~']);
                return h.to_owned();
            }
            assert(t@ != seq!['~']) by {
                if t@ == seq!['~'] {
                    assert(t@[0] == '~');
                }
            }
            proof {
                reveal_strlit("~/");
                assert("~/"@ == seq!['~', '/']);
            }
            match strip_prefix(t, "~/") {
                Some(rest) => {
                    let tail: String = string_of(rest);
                    return join_path(h, tail.as_str());
                },
                None => {},
            }
        },
        None => {},
    }
    string_of(t)
}

/// A borrowed form of an optional text.
fn borrowed(s: &Option<String>) -> (r: Option<&str>)
    ensures
        opt_ref(r) == opt(*s),
{
    match s {
        Some(t) => Some(t.as_str()),
        None => None,
    }
}

/// Replaces a tilde in front of a path by the home directory.
pub fn expand_tilde(raw: &str) -> (r: String)
    ensures
        exists|home: Option<Seq<char>>| r@ == #[trigger] expanded(raw@, home),
        !text::begins(text::trimmed(raw@), seq!['~']) ==> r@ == text::trimmed(raw@),
{
    let home: Option<String> = home_dir();
    let r: String = expand_tilde_with(raw, borrowed(&home));
    assert(r@ == expanded(raw@, opt(home)));
    proof {
        let t = text::trimmed(raw@);
        if !text::begins(t, seq!['~']) {
            assert(t != seq!['~']) by {
                if t == seq!['~'] {
                    assert(t.take(1) == t);
                }
            }
            assert(!text::begins(t, seq!['~', '/'])) by {
                if text::begins(t, seq!['~', '/']) {
                    assert(t.take(2)[0] == '~');
                    assert(t.take(1) == seq!['~']);
                }
            }
        }
    }
    r
}

// --------------------------------------------------------------------- user files

/// The place of the user's configuration below a directory of configurations.
pub open spec fn user_path(dir: Seq<char>) -> Seq<char> {
    paths::joined_path(dir, "nota/config.toml"@)
}

/// The list with a text behind it, unless it ends with that text.
pub open spec fn pushed(list: Seq<Seq<char>>, s: Seq<char>) -> Seq<Seq<char>> {
    if list.len() > 0 && list.last() == s {
        list
    } else {
        list.push(s)
    }
}

/// The places of the user's configuration, the first to be looked at first: below the
/// directory that is set for configurations, below the home directory, and in the place
/// that is usual on the system. One that follows itself is named once.
pub open spec fn user_paths(
    xdg: Option<Seq<char>>,
    home: Option<Seq<char>>,
    config: Option<Seq<char>>,
) -> Seq<Seq<char>> {
    let a = if xdg is Some && !text::is_blank(xdg->0) {
        seq![user_path(expanded(xdg->0, home))]
    } else {
        Seq::empty()
    };
    let b = if home is Some {
        pushed(a, user_path(paths::joined_path(home->0, ".config"@)))
    } else {
        a
    };
    if config is Some {
        pushed(b, user_path(config->0))
    } else {
        b
    }
}

/// Adds a text to a list, unless the list ends with it.
fn push_new(list: &mut Vec<String>, s: String)
    ensures
        text::texts(final(list)@) == pushed(text::texts(old(list)@), s@),
{
    let ghost before = list@;
    if list.len() > 0 {
        assert(text::texts(list@).last() == list@.last()@);
        if same_string(list[list.len() - 1].as_str(), s.as_str()) {
            return;
        }
    }
    list.push(s);
    assert(text::texts(list@) == text::texts(before).push(s@));
}

/// The places of the user's configuration, the first to be looked at first.
pub fn user_config_paths_with(
    xdg: Option<&str>,
    home: Option<&str>,
    config: Option<&str>,
) -> (r: Vec<String>)
    ensures
        text::texts(r@) == user_paths(opt_ref(xdg), opt_ref(home), opt_ref(config)),
{
    let mut out: Vec<String> = Vec::new();
    assert(text::texts(out@) == Seq::<Seq<char>>::empty());
    match xdg {
        Some(x) => {
            if !blank(x) {
                let dir: String = expand_tilde_with(x, home);
                push_new(&mut out, join_path(dir.as_str(), "nota/config.toml"));
                assert(text::texts(out@) =~= seq![user_path(expanded(x@, opt_ref(home)))]);
            }
        },
        None => {},
    }
    match home {
        Some(h) => {
            let dir: String = join_path(h, ".config");
            push_new(&mut out, join_path(dir.as_str(), "nota/config.toml"));
        },
        None => {},
    }
    match config {
        Some(c) => {
            push_new(&mut out, join_path(c, "nota/config.toml"));
        },
        None => {},
    }
    out
}

/// The places of the user's configuration on this system.
pub fn user_config_paths(xdg: Option<&str>) -> (r: Vec<String>)
    ensures
        exists|home: Option<Seq<char>>, config: Option<Seq<char>>|
            text::texts(r@) == #[trigger] user_paths(opt_ref(xdg), home, config),
{
    let home: Option<String> = home_dir();
    let config: Option<String> = config_dir();
    let r: Vec<String> = user_config_paths_with(xdg, borrowed(&home), borrowed(&config));
    assert(text::texts(r@) == user_paths(opt_ref(xdg), opt(home), opt(config)));
    r
}

// ------------------------------------------------------------------- candidates

/// The data directory that a configuration file names; none where it is blank.
pub open spec fn named_dir(f: ConfigFile) -> Option<Seq<char>> {
    match f.data_dir {
        Some(d) => if text::is_blank(d@) {
            None
        } else {
            Some(text::trimmed(d@))
        },
        None => None,
    }
}

/// The settings of a configuration file with the data directory that it names.
pub open spec fn setup_of(f: ConfigFile, dir: Seq<char>, source: Seq<char>) -> ConfigView {
    ConfigView {
        data_dir: dir,
        source,
        recent_notes: match f.recent_notes {
            Some(n) => n,
            None => DEFAULT_RECENT_NOTES,
        },
        project_done_limit: match f.project_done_limit {
            Some(n) => n,
            None => DEFAULT_DONE_LIMIT,
        },
    }
}

/// The data directory that a configuration file names.
pub fn data_dir_of(f: &ConfigFile) -> (r: Option<String>)
    ensures
        opt(r) == named_dir(*f),
{
    match &f.data_dir {
        Some(d) => {
            if blank(d.as_str()) {
                None
            } else {
                Some(trim_string(d.as_str()))
            }
        },
        None => None,
    }
}

/// The candidates of configuration files, each with the place it was read from.
pub open spec fn file_candidates(files: Seq<(Seq<char>, ConfigFile)>) -> Seq<ConfigView>
    decreases files.len(),
{
    if files.len() == 0 {
        Seq::empty()
    } else {
        let before = file_candidates(files.drop_last());
        match named_dir(files.last().1) {
            Some(dir) => before.push(setup_of(files.last().1, dir, files.last().0)),
            None => before,
        }
    }
}

/// The configuration that looks into the home directory where nothing is set.
pub open spec fn fallback(home: Seq<char>) -> ConfigView {
    ConfigView {
        data_dir: paths::joined_path(home, "Documents/Acta"@),
        source: "既定値"@,
        recent_notes: DEFAULT_RECENT_NOTES,
        project_done_limit: DEFAULT_DONE_LIMIT,
    }
}

/// All candidates: those of the files, then the one in the home directory.
pub open spec fn all_candidates(
    files: Seq<(Seq<char>, ConfigFile)>,
    home: Option<Seq<char>>,
) -> Seq<ConfigView> {
    match home {
        Some(h) => file_candidates(files).push(fallback(h)),
        None => file_candidates(files),
    }
}

/// What a list of files with the places they were read from holds.
pub open spec fn file_views(v: Seq<(String, ConfigFile)>) -> Seq<(Seq<char>, ConfigFile)> {
    v.map_values(|f: (String, ConfigFile)| (f.0@, f.1))
}

/// The candidates for the data directory, the first to be tried first.
pub fn candidates_with(files: &Vec<(String, ConfigFile)>, home: Option<&str>) -> (r: Vec<Config>)
    ensures
        config_views(r@) == all_candidates(file_views(files@), opt_ref(home)),
{
    let ghost all = file_views(files@);
    let mut out: Vec<Config> = Vec::new();
    let mut i: usize = 0;
    assert(config_views(out@) == Seq::<ConfigView>::empty());
    while i < files.len()
        invariant
            i <= files.len(),
            all == file_views(files@),
            config_views(out@) == file_candidates(all.take(i as int)),
        decreases files.len() - i,
    {
        assert(all.take(i + 1).drop_last() == all.take(i as int));
        assert(all[i as int] == (files[i as int].0@, files[i as int].1));
        let f: &ConfigFile = &files[i].1;
        match data_dir_of(f) {
            Some(data_dir) => {
                let c = Config {
                    data_dir,
                    source: files[i].0.clone(),
                    recent_notes: match f.recent_notes {
                        Some(n) => n,
                        None => DEFAULT_RECENT_NOTES,
                    },
                    project_done_limit: match f.project_done_limit {
                        Some(n) => n,
                        None => DEFAULT_DONE_LIMIT,
                    },
                };
                let ghost done = out@;
                out.push(c);
                assert(config_views(out@) == config_views(done).push(c@));
            },
            None => {},
        }
        i += 1;
    }
    assert(all.take(i as int) == all);
    match home {
        Some(h) => {
            let c = Config {
                data_dir: join_path(h, "Documents/Acta"),
                source: "既定値".to_owned(),
                recent_notes: DEFAULT_RECENT_NOTES,
                project_done_limit: DEFAULT_DONE_LIMIT,
            };
            let ghost done = out@;
            out.push(c);
            assert(config_views(out@) == config_views(done).push(c@));
        },
        None => {},
    }
    out
}

/// The candidates for the data directory on this system.
pub fn candidates(files: &Vec<(String, ConfigFile)>) -> (r: Vec<Config>)
    ensures
        exists|home: Option<Seq<char>>|
            config_views(r@) == #[trigger] all_candidates(file_views(files@), home),
{
    let home: Option<String> = home_dir();
    let r: Vec<Config> = candidates_with(files, borrowed(&home));
    assert(config_views(r@) == all_candidates(file_views(files@), opt(home)));
    r
}

/// The label of the file that the environment points to.
pub fn env_source(path: &str) -> (r: String)
    ensures
        r@ == path@ + " (NOTA_CONFIG)"@,
{
    let mut s: String = path.to_owned();
    s.append(" (NOTA_CONFIG)");
    assert(s@ == path@ + " (NOTA_CONFIG)"@);
    s
}

// --------------------------------------------------------------------- resolving

/// Why no data directory was found.
#[derive(Debug)]
pub enum ConfigError {
    /// The directory that was asked for holds no data.
    NotData(String),
    /// No candidate holds data.
    NotFound,
}

/// What an error says.
pub open spec fn error_text(e: ConfigError) -> Seq<char> {
    match e {
        ConfigError::NotData(dir) => "指定されたディレクトリに Acta のデータがありません: "@
            + dir@
            + "\nposts/ か projects/ を含むディレクトリを指定してください。"@,
        ConfigError::NotFound =>
            "Acta のデータディレクトリが見つかりません。\n次のいずれかで posts/ と projects/ を含むディレクトリを指定してください。\n\n1. 環境変数: export NOTA_DATA_DIR=/path/to/Acta\n2. 設定ファイル: ~/.config/nota/config.toml\n\n設定ファイルの書式は config.example.toml を参照してください。"@,
    }
}

impl ConfigError {
    /// What went wrong, in words.
    pub fn message(&self) -> (r: String)
        ensures
            r@ == error_text(*self),
    {
        match self {
            ConfigError::NotData(dir) => {
                let mut s: String =
                    "指定されたディレクトリに Acta のデータがありません: ".to_owned();
                s.append(dir.as_str());
                s.append("\nposts/ か projects/ を含むディレクトリを指定してください。");
                assert(s@ == error_text(*self));
                s
            },
            ConfigError::NotFound => {
                "Acta のデータディレクトリが見つかりません。\n次のいずれかで posts/ と projects/ を含むディレクトリを指定してください。\n\n1. 環境変数: export NOTA_DATA_DIR=/path/to/Acta\n2. 設定ファイル: ~/.config/nota/config.toml\n\n設定ファイルの書式は config.example.toml を参照してください。".to_owned()
            },
        }
    }
}

/// The first place from `i` on that holds data, or the number of places.
pub open spec fn first_right(looks_right: Seq<bool>, i: int) -> int
    decreases looks_right.len() - i,
{
    if i >= looks_right.len() || looks_right[i] {
        i
    } else {
        first_right(looks_right, i + 1)
    }
}

/// Whether a place was asked for.
pub open spec fn is_asked(explicit: Option<Seq<char>>) -> bool {
    explicit is Some && !text::is_blank(explicit->0)
}

/// Whether a place was asked for.
pub fn asks(explicit: Option<&str>) -> (r: bool)
    ensures
        r == is_asked(opt_ref(explicit)),
{
    match explicit {
        Some(dir) => !blank(dir),
        None => false,
    }
}

/// Whether the result is the one that is due. A place that was asked for is used or refused;
/// otherwise it is the first candidate that holds data.
pub open spec fn is_resolved(
    r: Result<Config, ConfigError>,
    explicit: Option<Seq<char>>,
    home: Option<Seq<char>>,
    asked_is_right: bool,
    candidates: Seq<ConfigView>,
    looks_right: Seq<bool>,
) -> bool {
    if is_asked(explicit) {
        let dir = expanded(explicit->0, home);
        match r {
            Ok(c) => asked_is_right && c@ == (ConfigView {
                data_dir: dir,
                source: "--data-dir または NOTA_DATA_DIR"@,
                recent_notes: DEFAULT_RECENT_NOTES,
                project_done_limit: DEFAULT_DONE_LIMIT,
            }),
            Err(ConfigError::NotData(d)) => !asked_is_right && d@ == dir,
            Err(ConfigError::NotFound) => false,
        }
    } else {
        let at = first_right(looks_right, 0);
        match r {
            Ok(c) => at < looks_right.len() && c@ == (ConfigView {
                data_dir: expanded(candidates[at].data_dir, home),
                ..candidates[at]
            }),
            Err(e) => at >= looks_right.len() && e is NotFound,
        }
    }
}

impl Config {
    /// Decides on a data directory. `asked_is_right` and `looks_right` tell of the place
    /// that was asked for, and of each candidate, whether it holds data.
    pub fn resolve_with(
        explicit: Option<&str>,
        home: Option<&str>,
        asked_is_right: bool,
        candidates: &Vec<Config>,
        looks_right: &Vec<bool>,
    ) -> (r: Result<Config, ConfigError>)
        requires
            candidates@.len() == looks_right@.len(),
        ensures
            is_resolved(
                r,
                opt_ref(explicit),
                opt_ref(home),
                asked_is_right,
                config_views(candidates@),
                looks_right@,
            ),
    {
        match explicit {
            Some(dir) => {
                if !blank(dir) {
                    let data_dir: String = expand_tilde_with(dir, home);
                    if !asked_is_right {
                        return Err(ConfigError::NotData(data_dir));
                    }
                    return Ok(
                        Config {
                            data_dir,
                            source: "--data-dir または NOTA_DATA_DIR".to_owned(),
                            recent_notes: DEFAULT_RECENT_NOTES,
                            project_done_limit: DEFAULT_DONE_LIMIT,
                        },
                    );
                }
            },
            None => {},
        }
        let mut i: usize = 0;
        while i < looks_right.len() && !looks_right[i]
            invariant
                i <= looks_right.len(),
                first_right(looks_right@, 0) == first_right(looks_right@, i as int),
            decreases looks_right.len() - i,
        {
            i += 1;
        }
        if i < looks_right.len() {
            let found: &Config = &candidates[i];
            assert(config_views(candidates@)[i as int] == found@);
            Ok(
                Config {
                    data_dir: expand_tilde_with(found.data_dir.as_str(), home),
                    source: found.source.clone(),
                    recent_notes: found.recent_notes,
                    project_done_limit: found.project_done_limit,
                },
            )
        } else {
            Err(ConfigError::NotFound)
        }
    }

    /// Decides on a data directory on this system.
    pub fn resolve(
        explicit: Option<&str>,
        asked_is_right: bool,
        candidates: &Vec<Config>,
        looks_right: &Vec<bool>,
    ) -> (r: Result<Config, ConfigError>)
        requires
            candidates@.len() == looks_right@.len(),
        ensures
            exists|home: Option<Seq<char>>| #[trigger]
                is_resolved(
                    r,
                    opt_ref(explicit),
                    home,
                    asked_is_right,
                    config_views(candidates@),
                    looks_right@,
                ),
    {
        let home: Option<String> = home_dir();
        let r = Self::resolve_with(
            explicit,
            borrowed(&home),
            asked_is_right,
            candidates,
            looks_right,
        );
        assert(is_resolved(
            r,
            opt_ref(explicit),
            opt(home),
            asked_is_right,
            config_views(candidates@),
            looks_right@,
        ));
        r
    }
}

// --------------------------------------------------------------------------- law

/// A place that was asked for and holds no data is refused: no candidate takes its place.
pub proof fn law_asked_place_is_not_replaced(
    r: Result<Config, ConfigError>,
    explicit: Seq<char>,
    home: Option<Seq<char>>,
    candidates: Seq<ConfigView>,
    looks_right: Seq<bool>,
)
    requires
        !text::is_blank(explicit),
        is_resolved(r, Some(explicit), home, false, candidates, looks_right),
    ensures
        r matches Err(ConfigError::NotData(d)) && d@ == expanded(explicit, home),
{
}

/// Whether a file names a data directory.
pub open spec fn names_dir(f: ConfigFile) -> bool {
    f.data_dir is Some && text::trimmed(f.data_dir->0@).len() > 0
}

/// Each configuration file that names a data directory is a candidate, in the order of the
/// files; a setting that it lacks has its usual value. The directory of documents in the home
/// directory comes last.
pub proof fn law_candidates_are_the_files(
    files: Seq<(Seq<char>, ConfigFile)>,
    home: Option<Seq<char>>,
)
    ensures
        exists|at: Seq<int>|
            {
                let all = all_candidates(files, home);
                &&& #[trigger] pick::rising(at, files.len() as int)
                &&& forall|i: int|
                    0 <= i < files.len() ==> #[trigger] at.contains(i) == names_dir(files[i].1)
                &&& all.len() == at.len() + if home is Some {
                    1int
                } else {
                    0
                }
                &&& forall|k: int|
                    0 <= k < at.len() ==> {
                        let f = files[at[k]].1;
                        let c = #[trigger] all[k];
                        &&& c.data_dir == text::trimmed(f.data_dir->0@)
                        &&& c.source == files[at[k]].0
                        &&& f.recent_notes is Some ==> c.recent_notes == f.recent_notes->0
                        &&& f.recent_notes is None ==> c.recent_notes == 30
                        &&& f.project_done_limit is Some ==> c.project_done_limit
                            == f.project_done_limit->0
                        &&& f.project_done_limit is None ==> c.project_done_limit == 5
                    }
                &&& home is Some ==> all.last().data_dir == paths::joined_path(
                    home->0,
                    "Documents/Acta"@,
                )
            },
{
    let n = files.len() as int;
    let some = file_candidates(files);
    let all = all_candidates(files, home);
    let grown = |k: int| file_candidates(files.take(k));
    let keep = |k: int| names_dir(files[k].1);
    let item = |k: int|
        setup_of(files[k].1, text::trimmed(files[k].1.data_dir->0@), files[k].0);
    assert forall|k: int| #![trigger keep(k)] 0 <= k < n implies {
        &&& keep(k) ==> grown(k + 1) == grown(k).push(item(k))
        &&& !keep(k) ==> grown(k + 1) == grown(k)
    } by {
        assert(files.take(k + 1).drop_last() == files.take(k));
        assert(files.take(k + 1).last() == files[k]);
    }
    pick::lemma_collected(grown, n, keep, item);
    pick::lemma_places(n, keep);
    assert(files.take(n) == files);
    let at = pick::places(n, keep);
    assert(pick::rising(at, n));
    assert forall|k: int| 0 <= k < at.len() implies {
        let f = files[at[k]].1;
        let c = #[trigger] all[k];
        &&& c.data_dir == text::trimmed(f.data_dir->0@)
        &&& c.source == files[at[k]].0
        &&& f.recent_notes is Some ==> c.recent_notes == f.recent_notes->0
        &&& f.recent_notes is None ==> c.recent_notes == 30
        &&& f.project_done_limit is Some ==> c.project_done_limit == f.project_done_limit->0
        &&& f.project_done_limit is None ==> c.project_done_limit == 5
    } by {
        assert(all[k] == some[k]);
        assert(grown(n)[k] == item(at[k]));
    }
}

/// Where no place was asked for, the first candidate that holds data is used, with its
/// settings; where none holds data, none is found.
pub proof fn law_first_right_candidate_is_used(
    r: Result<Config, ConfigError>,
    explicit: Option<Seq<char>>,
    home: Option<Seq<char>>,
    asked_is_right: bool,
    candidates: Seq<ConfigView>,
    looks_right: Seq<bool>,
)
    requires
        candidates.len() == looks_right.len(),
        explicit is None || text::trimmed(explicit->0).len() == 0,
        is_resolved(r, explicit, home, asked_is_right, candidates, looks_right),
    ensures
        match r {
            Ok(c) => exists|i: int|
                {
                    &&& 0 <= i < candidates.len()
                    &&& #[trigger] looks_right[i]
                    &&& forall|j: int| 0 <= j < i ==> !#[trigger] looks_right[j]
                    &&& c@.data_dir == expanded(candidates[i].data_dir, home)
                    &&& c@.source == candidates[i].source
                    &&& c@.recent_notes == candidates[i].recent_notes
                    &&& c@.project_done_limit == candidates[i].project_done_limit
                },
            Err(e) => e is NotFound && forall|j: int|
                0 <= j < looks_right.len() ==> !#[trigger] looks_right[j],
        },
{
    lemma_first_right(looks_right, 0);
    let at = first_right(looks_right, 0);
    if at < looks_right.len() {
        assert(looks_right[at]);
    }
}

proof fn lemma_first_right(looks_right: Seq<bool>, i: int)
    requires
        0 <= i <= looks_right.len(),
    ensures
        ({
            let at = first_right(looks_right, i);
            &&& i <= at <= looks_right.len()
            &&& at < looks_right.len() ==> looks_right[at]
            &&& forall|j: int| i <= j < at ==> !#[trigger] looks_right[j]
        }),
    decreases looks_right.len() - i,
{
    if i < looks_right.len() && !looks_right[i] {
        lemma_first_right(looks_right, i + 1);
    }
}

/// A tilde alone is the home directory, and one before a slash stands for it; every other path
/// stays as it is, but for white space around it. Without a home directory all paths do.
pub proof fn law_tilde_is_the_home(rest: Seq<char>, path: Seq<char>, home: Seq<char>)
    requires
        text::trimmed(path) == path,
        rest.len() > 0 ==> !text::is_space(rest.last()),
        path.len() == 0 || path[0] != '~',
    ensures
        expanded(seq!['~'], Some(home)) == home,
        expanded(seq!['~', '/'] + rest, Some(home)) == paths::joined_path(home, rest),
        expanded(path, Some(home)) == path,
        expanded(seq!['~', '/'] + rest, None) == seq!['~', '/'] + rest,
{
    let a = seq!['~'];
    let b = seq!['~', '/'] + rest;
    assert(!text::is_space('~') && !text::is_space('/'));
    text::lemma_trimmed_solid(a);
    assert(text::trimmed_start(b) == b);
    assert(b.last() == if rest.len() > 0 {
        rest.last()
    } else {
        '/'
    });
    assert(text::trimmed(b) == b);
    assert(b.take(2) =~= seq!['~', '/']);
    assert(b.skip(2) =~= rest);
    assert(b.len() >= 2 && a.len() == 1);
    if path.len() >= 2 {
        assert(path.take(2)[0] == path[0]);
    }
    if path == a {
        assert(path[0] == '~');
    }
}

/// The user's own configuration is looked for below the directory that is set for
/// configurations, then below the home directory, then in the usual place; a place that is the
/// same as the one before it is looked at once.
pub proof fn law_user_paths(xdg: Seq<char>, home: Seq<char>, usual: Seq<char>)
    requires
        text::trimmed(xdg).len() > 0,
    ensures
        ({
            let file = "nota/config.toml"@;
            let a = paths::joined_path(expanded(xdg, Some(home)), file);
            let b = paths::joined_path(paths::joined_path(home, ".config"@), file);
            let c = paths::joined_path(usual, file);
            &&& user_paths(None, None, None).len() == 0
            &&& user_paths(Some(xdg), None, None) == seq![
                paths::joined_path(expanded(xdg, None), file),
            ]
            &&& user_paths(None, Some(home), None) == seq![b]
            &&& user_paths(None, None, Some(usual)) == seq![c]
            &&& a != b && b != c ==> user_paths(Some(xdg), Some(home), Some(usual)) == seq![a, b, c]
            &&& a == b && b != c ==> user_paths(Some(xdg), Some(home), Some(usual)) == seq![a, c]
            &&& a != b && b == c ==> user_paths(Some(xdg), Some(home), Some(usual)) == seq![a, b]
            &&& a == b && b == c ==> user_paths(Some(xdg), Some(home), Some(usual)) == seq![a]
        }),
{
}

} // verus!
