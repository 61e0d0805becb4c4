//! The reader's persistent settings, and paths that start with `~/`.
//!
//! The speed is held in thousandths (1000 = 1x), which is how the settings
//! panel steps it: by a tenth, rounded to a tenth.

use vstd::prelude::*;
use crate::text::{chars_of, owned, push_str, string_of_range};

verus! {

/// Settings of the reader UI (stored as `config.toml`).
pub struct Config {
    pub voice: String,
    /// Synthesis speed in thousandths of normal.
    pub speed_milli: u32,
    pub audio_dir: String,
    pub save_audio: bool,
    pub cleanup_on_exit: bool,
}

/// What the settings are, as plain values.
pub struct ConfigModel {
    pub voice: Seq<char>,
    pub speed_milli: u32,
    pub audio_dir: Seq<char>,
    pub save_audio: bool,
    pub cleanup_on_exit: bool,
}

impl View for Config {
    type V = ConfigModel;

    open spec fn view(&self) -> ConfigModel {
        ConfigModel {
            voice: self.voice@,
            speed_milli: self.speed_milli,
            audio_dir: self.audio_dir@,
            save_audio: self.save_audio,
            cleanup_on_exit: self.cleanup_on_exit,
        }
    }
}

impl Config {
    pub open spec fn is_default(self) -> bool {
        &&& self.voice@ == "bm_george"@
        &&& self.speed_milli == 1000
        &&& self.audio_dir@ == "~/Music/vox"@
        &&& self.save_audio
        &&& !self.cleanup_on_exit
    }

    /// Where saved audio goes: `audio_dir` with `~/` read as `home`.
    pub fn audio_dir_path(&self, home: Option<&str>) -> (r: String)
        ensures
            r@ == expand_tilde_of(self.audio_dir@, opt_view(home)),
    {
        expand_tilde(&self.audio_dir, home)
    }
}

impl Default for Config {
    fn default() -> (c: Config)
        ensures
            c.is_default(),
    {
        Config {
            voice: owned("bm_george"),
            speed_milli: 1000,
            audio_dir: owned("~/Music/vox"),
            save_audio: true,
            cleanup_on_exit: false,
        }
    }
}

pub open spec fn opt_view(o: Option<&str>) -> Option<Seq<char>> {
    match o {
        Some(s) => Some(s@),
        None => None,
    }
}

/// `Path::join`: an absolute `rest` replaces `base`; otherwise the two are
/// joined with a `/`, none added to an empty base or after a trailing `/`.
pub open spec fn join_path(base: Seq<char>, rest: Seq<char>) -> Seq<char> {
    if rest.len() > 0 && rest[0] == '/' {
        rest
    } else if base.len() == 0 {
        rest
    } else if base.last() == '/' {
        base + rest
    } else {
        base + seq!['/'] + rest
    }
}

pub fn join_path_text(base: &str, rest: &str) -> (r: String)
    ensures
        r@ == join_path(base@, rest@),
{
    let b = chars_of(base);
    let t = chars_of(rest);
    if t.len() > 0 && t[0] == '/' {
        owned(rest)
    } else if b.len() == 0 {
        owned(rest)
    } else if b[b.len() - 1] == '/' {
        let mut r = owned(base);
        push_str(&mut r, rest);
        r
    } else {
        let mut r = owned(base);
        r.push('/');
        push_str(&mut r, rest);
        r
    }
}

/// `~/rest` read as `rest` under `home`, when a home is known; any other
/// path as it is.
pub open spec fn expand_tilde_of(s: Seq<char>, home: Option<Seq<char>>) -> Seq<char> {
    if s.len() >= 2 && s[0] == '~' && s[1] == '/' && home is Some {
        join_path(home.unwrap(), s.subrange(2, s.len() as int))
    } else {
        s
    }
}

pub fn expand_tilde(s: &str, home: Option<&str>) -> (r: String)
    ensures
        r@ == expand_tilde_of(s@, opt_view(home)),
{
    let v = chars_of(s);
    if v.len() >= 2 && v[0] == '~' && v[1] == '/' {
        match home {
            Some(h) => {
                let rest = string_of_range(&v, 2, v.len());
                join_path_text(h, &rest)
            },
            None => owned(s),
        }
    } else {
        owned(s)
    }
}

} // verus!
