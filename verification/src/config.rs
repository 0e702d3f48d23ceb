//! The CLI's persisted settings and the choices `aria-memo setup` makes.
use vstd::prelude::*;
use crate::text::{
    chars_of, concat_chars, contains_seq, contains_str, owned, string_of, trim, trim_chars,
};
use crate::upgrade::opt_view;

verus! {

/// Default Releases org root on GitHub (`upgrade` appends `/memo/releases`).
pub const DEFAULT_UPGRADE_URL_COM: &'static str = "https://github.com/ariacompute";

/// Default Releases org root on Gitee.
pub const DEFAULT_UPGRADE_URL_CN: &'static str = "https://gitee.com/ariacompute";

/// The built-in upgrade URL: GitHub.
pub fn default_upgrade_url() -> (r: &'static str)
    ensures
        r == DEFAULT_UPGRADE_URL_COM,
{
    DEFAULT_UPGRADE_URL_COM
}

} // verus!

verus! {

/// Whether a site selector names the `.cn` site: `cn` in any ASCII case, surrounding
/// whitespace ignored.
pub open spec fn is_cn_site(site: Seq<char>) -> bool {
    crate::text::ascii_lower(trim(site)) == "cn"@
}

/// The default upgrade URL for a site: Gitee for `cn`, GitHub otherwise.
pub fn default_upgrade_url_for_site(site: &str) -> (r: &'static str)
    ensures
        is_cn_site(site@) ==> r == DEFAULT_UPGRADE_URL_CN,
        !is_cn_site(site@) ==> r == DEFAULT_UPGRADE_URL_COM,
{
    let t = crate::text::ascii_lower_exec(&trim_chars(&chars_of(site)));
    if crate::text::chars_eq(&t, &chars_of("cn")) {
        DEFAULT_UPGRADE_URL_CN
    } else {
        DEFAULT_UPGRADE_URL_COM
    }
}

/// The CLI settings saved in `~/.ariacompute/memo-cli.yml`.
#[derive(Debug, Clone, PartialEq, Eq)]
pub struct MemoCliConfig {
    /// Releases org root used by `aria-memo upgrade`; empty when unset.
    pub upgrade_url: String,
}

impl Default for MemoCliConfig {
    fn default() -> (r: Self)
        ensures
            r.upgrade_url@ == Seq::<char>::empty(),
    {
        MemoCliConfig { upgrade_url: String::new() }
    }
}

/// The flags of `aria-memo setup`.
#[derive(Debug, Clone, Copy, PartialEq, Eq)]
pub struct SetupArgs {
    /// Show config status.
    pub status: bool,
    /// Remove the CLI config file.
    pub clear: bool,
}

/// What `aria-memo setup` does.
#[derive(Debug, Clone, Copy, PartialEq, Eq)]
pub enum SetupMode {
    Status,
    Clear,
    Write,
}

impl SetupArgs {
    /// `--status` wins over `--clear`; with neither, the config is written.
    pub fn mode(&self) -> (r: SetupMode)
        ensures
            self.status ==> r == SetupMode::Status,
            !self.status && self.clear ==> r == SetupMode::Clear,
            !self.status && !self.clear ==> r == SetupMode::Write,
    {
        if self.status {
            SetupMode::Status
        } else if self.clear {
            SetupMode::Clear
        } else {
            SetupMode::Write
        }
    }
}

/// The choice offered by default in the interactive prompt: 2 (Gitee) when the default
/// URL is on `gitee.com`, else 1 (GitHub).
pub fn default_choice(default_url: &str) -> (r: u8)
    ensures
        r == (if contains_seq(default_url@, "gitee.com"@) {
            2u8
        } else {
            1u8
        }),
{
    if contains_str(&chars_of(default_url), "gitee.com") {
        2
    } else {
        1
    }
}

/// What an answer to the prompt selects: the default for an empty answer, GitHub for
/// `1`, Gitee for `2`, and otherwise nothing (the trimmed answer comes back as the error).
pub open spec fn spec_choice(answer: Seq<char>, default_url: Seq<char>) -> Result<Seq<char>, Seq<char>> {
    let c = trim(answer);
    if c.len() == 0 {
        Ok(default_url)
    } else if c == "1"@ {
        Ok(DEFAULT_UPGRADE_URL_COM@)
    } else if c == "2"@ {
        Ok(DEFAULT_UPGRADE_URL_CN@)
    } else {
        Err(c)
    }
}

/// Reads the answer to "Choice [n]:".
pub fn resolve_choice(answer: &str, default_url: &str) -> (r: Result<String, String>)
    ensures
        r matches Ok(u) ==> spec_choice(answer@, default_url@) == Ok::<Seq<char>, Seq<char>>(u@),
        r matches Err(c) ==> spec_choice(answer@, default_url@) == Err::<Seq<char>, Seq<char>>(c@),
{
    let c = trim_chars(&chars_of(answer));
    if c.len() == 0 {
        Ok(owned(default_url))
    } else if crate::text::chars_eq(&c, &chars_of("1")) {
        Ok(owned(DEFAULT_UPGRADE_URL_COM))
    } else if crate::text::chars_eq(&c, &chars_of("2")) {
        Ok(owned(DEFAULT_UPGRADE_URL_CN))
    } else {
        Err(string_of(&c))
    }
}

/// The URL `setup` saves when it cannot ask: the site's default when `ARIA_MEMO_SITE` is
/// set, else the saved one, else GitHub.
pub open spec fn spec_unattended_url(site: Seq<char>, existing: Seq<char>) -> Seq<char> {
    if trim(site).len() > 0 {
        if is_cn_site(site) {
            DEFAULT_UPGRADE_URL_CN@
        } else {
            DEFAULT_UPGRADE_URL_COM@
        }
    } else if existing.len() > 0 {
        existing
    } else {
        DEFAULT_UPGRADE_URL_COM@
    }
}

/// Chooses the URL to save without prompting.
pub fn unattended_url(site: &str, existing: &str) -> (r: String)
    ensures
        r@ == spec_unattended_url(site@, existing@),
{
    if trim_chars(&chars_of(site)).len() > 0 {
        owned(default_upgrade_url_for_site(site))
    } else if !existing.is_empty() {
        owned(existing)
    } else {
        owned(DEFAULT_UPGRADE_URL_COM)
    }
}

} // verus!

verus! {

/// `name` under the directory `dir`, as `Path::join` puts it for a relative name: `name`
/// alone under an empty directory, no second `/` after a trailing one.
pub open spec fn path_join(dir: Seq<char>, name: Seq<char>) -> Seq<char> {
    if dir.len() == 0 {
        name
    } else if dir.last() == '/' {
        dir + name
    } else {
        dir + "/"@ + name
    }
}

/// The memo home: a non-empty `ARIA_COMPUTE_HOME` as it is, else `.ariacompute` under the
/// user's home directory, else none.
pub open spec fn spec_memo_home(override_home: Option<Seq<char>>, home: Option<Seq<char>>) -> Option<
    Seq<char>,
> {
    if override_home is Some && override_home.unwrap().len() > 0 {
        override_home
    } else {
        match home {
            Some(h) => Some(path_join(h, ".ariacompute"@)),
            None => None,
        }
    }
}

/// Executable [`path_join`].
pub fn join_path(dir: &str, name: &str) -> (r: String)
    ensures
        r@ == path_join(dir@, name@),
{
    let d = chars_of(dir);
    let n = chars_of(name);
    if d.len() == 0 {
        return owned(name);
    }
    if d[d.len() - 1] == '/' {
        return string_of(&concat_chars(&d, &n));
    }
    proof {
        reveal_strlit("/");
    }
    let with_sep = concat_chars(&d, &chars_of("/"));
    string_of(&concat_chars(&with_sep, &n))
}

/// The memo home directory (`~/.ariacompute`, overridable by `ARIA_COMPUTE_HOME`) from
/// the override's value and the user's home directory, as read from the environment;
/// none when neither is available.
pub fn memo_home_from(override_home: Option<&str>, home: Option<&str>) -> (r: Option<String>)
    ensures
        match r {
            Some(p) => spec_memo_home(opt_view(override_home), opt_view(home)) == Some(p@),
            None => spec_memo_home(opt_view(override_home), opt_view(home)) is None,
        },
{
    match override_home {
        Some(o) => {
            if !o.is_empty() {
                return Some(owned(o));
            }
        },
        None => {},
    }
    match home {
        Some(h) => Some(join_path(h, ".ariacompute")),
        None => None,
    }
}

/// The CLI config file in the memo home directory: `memo-cli.yml` under it.
pub fn cli_config_path_in(memo_home: &str) -> (r: String)
    ensures
        r@ == path_join(memo_home@, "memo-cli.yml"@),
{
    join_path(memo_home, "memo-cli.yml")
}

} // verus!
