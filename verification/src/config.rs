//! The application's settings: profiles of `llama-server` arguments, the
//! chosen profile and model, and the rules that keep them consistent.

use vstd::prelude::*;
use crate::args::{model_flag_message, profile_args_valid, spec_split_args, unclosed_quote_message, validate_profile_args};
use crate::text::{chars_of, push_all, push_lit, string_of, trim_chars, trim_ws};

verus! {

broadcast use vstd::string::group_string_axioms;

/// The version of the settings layout that this library writes.
pub const CONFIG_VERSION: u32 = 1;

/// The arguments of the profile that a fresh configuration starts with.
pub const DEFAULT_PROFILE_ARGS: &'static str = "-ngl 99 -c 131072 -ctk q4_0 -ctv q4_0 -ctkd q4_0 -ctvd q4_0 --merge-qkv -muge -t 1 -tb 1 -tm 16 --parallel 1 --ctx-checkpoints 32 -cram 65536 --spec-type mtp:n_max=4,p_min=0.0 -fa on -b 2048 -ub 512 --jinja --reasoning auto --chat-template-kwargs \"{\\\"reasoning_effort\\\":\\\"low\\\"}\" --host 0.0.0.0 --port 8080";

/// A named set of `llama-server` arguments.
#[derive(Clone, Debug)]
pub struct Profile {
    pub id: String,
    pub name: String,
    pub args: String,
}

/// The persisted settings.
#[derive(Clone, Debug)]
pub struct AppConfig {
    pub version: u32,
    pub llama_cpp_path: String,
    pub models_dir: String,
    pub autostart: bool,
    pub active_profile_id: String,
    pub active_model_path: Option<String>,
    pub profiles: Vec<Profile>,
}

/// What the settings window sends to create (no or empty `id`) or edit a
/// profile.
#[derive(Clone, Debug)]
pub struct ProfileInput {
    pub id: Option<String>,
    pub name: String,
    pub args: String,
}

/// Whether some profile of `ps` has the id `id`.
pub open spec fn has_profile(ps: Seq<Profile>, id: Seq<char>) -> bool {
    exists|i: int| 0 <= i < ps.len() && (#[trigger] ps[i]).id@ == id
}

/// The index of the first profile of `ps`, from `i` on, whose id is `id`;
/// `-1` when there is none.
pub open spec fn first_with_id(ps: Seq<Profile>, id: Seq<char>, i: int) -> int
    decreases ps.len() - i,
{
    if i < 0 || i >= ps.len() {
        -1
    } else if ps[i].id@ == id {
        i
    } else {
        first_with_id(ps, id, i + 1)
    }
}

/// A configuration whose profile list is not empty and whose active
/// profile id names one of its profiles.
pub open spec fn config_wf(c: AppConfig) -> bool {
    c.profiles@.len() > 0 && has_profile(c.profiles@, c.active_profile_id@)
}

/// The profile that a fresh configuration holds.
pub open spec fn is_default_profile(p: Profile) -> bool {
    &&& p.id@ == "default"@
    &&& p.name@ == "Qwen 27B"@
    &&& p.args@ == DEFAULT_PROFILE_ARGS@
}

/// The profile that `c` runs: the first whose id is the active id, or else
/// the first profile.
pub open spec fn spec_active_profile(c: AppConfig) -> Option<Profile> {
    let k = first_with_id(c.profiles@, c.active_profile_id@, 0);
    if k >= 0 {
        Some(c.profiles@[k])
    } else if c.profiles@.len() > 0 {
        Some(c.profiles@[0])
    } else {
        None
    }
}

proof fn lemma_first_with_id(ps: Seq<Profile>, id: Seq<char>, i: int)
    requires
        0 <= i,
    ensures
        first_with_id(ps, id, i) == -1 || (i <= first_with_id(ps, id, i) < ps.len() && ps[first_with_id(
            ps,
            id,
            i,
        )].id@ == id),
        first_with_id(ps, id, i) == -1 <==> forall|k: int| i <= k < ps.len() ==> (#[trigger] ps[k]).id@
            != id,
        forall|k: int| i <= k < first_with_id(ps, id, i) ==> (#[trigger] ps[k]).id@ != id,
    decreases ps.len() - i,
{
    if i < ps.len() && ps[i].id@ != id {
        lemma_first_with_id(ps, id, i + 1);
    }
}

/// `first_with_id` from the start finds a profile exactly when there is one.
pub proof fn lemma_first_with_id_found(ps: Seq<Profile>, id: Seq<char>)
    ensures
        has_profile(ps, id) <==> first_with_id(ps, id, 0) >= 0,
        first_with_id(ps, id, 0) >= 0 ==> first_with_id(ps, id, 0) < ps.len() && ps[first_with_id(
            ps,
            id,
            0,
        )].id@ == id,
        forall|k: int| 0 <= k < first_with_id(ps, id, 0) ==> (#[trigger] ps[k]).id@ != id,
{
    lemma_first_with_id(ps, id, 0);
    if has_profile(ps, id) {
        let k = choose|k: int| 0 <= k < ps.len() && (#[trigger] ps[k]).id@ == id;
        assert(ps[k].id@ == id);
    }
}

/// The index of the first profile of `ps` with id `id`, or `None`.
fn find_profile(ps: &Vec<Profile>, id: &String) -> (r: Option<usize>)
    ensures
        r matches Some(k) ==> k as int == first_with_id(ps@, id@, 0),
        r is None ==> first_with_id(ps@, id@, 0) == -1,
{
    proof {
        lemma_first_with_id(ps@, id@, 0);
    }
    let mut i: usize = 0;
    while i < ps.len()
        invariant
            i <= ps.len(),
            first_with_id(ps@, id@, 0) == first_with_id(ps@, id@, i as int),
        decreases ps.len() - i,
    {
        if ps[i].id == *id {
            return Some(i);
        }
        i = i + 1;
    }
    None
}

impl Default for AppConfig {
    fn default() -> (r: AppConfig)
        ensures
            r.version == CONFIG_VERSION,
            r.llama_cpp_path@ == Seq::<char>::empty(),
            r.models_dir@ == Seq::<char>::empty(),
            !r.autostart,
            r.active_profile_id@ == "default"@,
            r.active_model_path is None,
            r.profiles@.len() == 1,
            is_default_profile(r.profiles@[0]),
    {
        let mut profiles: Vec<Profile> = Vec::new();
        profiles.push(
            Profile {
                id: "default".to_string(),
                name: "Qwen 27B".to_string(),
                args: DEFAULT_PROFILE_ARGS.to_string(),
            },
        );
        AppConfig {
            version: CONFIG_VERSION,
            llama_cpp_path: String::new(),
            models_dir: String::new(),
            autostart: false,
            active_profile_id: "default".to_string(),
            active_model_path: None,
            profiles,
        }
    }
}

impl AppConfig {
    /// Brings settings read from disk up to date: the current version, at
    /// least one profile (the default one when there is none), and an
    /// active profile id that names one of the profiles.
    pub fn migrate(self) -> (r: AppConfig)
        ensures
            r.version == if self.version < CONFIG_VERSION {
                CONFIG_VERSION
            } else {
                self.version
            },
            r.llama_cpp_path == self.llama_cpp_path,
            r.models_dir == self.models_dir,
            r.autostart == self.autostart,
            r.active_model_path == self.active_model_path,
            self.profiles@.len() == 0 ==> r.profiles@.len() == 1 && is_default_profile(r.profiles@[0])
                && r.active_profile_id@ == "default"@,
            self.profiles@.len() > 0 ==> r.profiles@ == self.profiles@ && r.active_profile_id@ == if has_profile(
                self.profiles@,
                self.active_profile_id@,
            ) {
                self.active_profile_id@
            } else {
                self.profiles@[0].id@
            },
            config_wf(r),
            config_wf(self) && self.version >= CONFIG_VERSION ==> r == self,
    {
        let mut c = self;
        if c.version < CONFIG_VERSION {
            c.version = CONFIG_VERSION;
        }
        if c.profiles.len() == 0 {
            let d = AppConfig::default();
            c.profiles = d.profiles;
            c.active_profile_id = d.active_profile_id;
        }
        proof {
            lemma_first_with_id_found(c.profiles@, c.active_profile_id@);
        }
        match find_profile(&c.profiles, &c.active_profile_id) {
            Some(_) => {},
            None => {
                c.active_profile_id = c.profiles[0].id.clone();
                assert(c.profiles@[0].id@ == c.active_profile_id@);
            },
        }
        c
    }

    /// The profile to run: the first one whose id is the active id, or else
    /// the first profile.
    pub fn active_profile(&self) -> (r: Option<&Profile>)
        ensures
            match r {
                Some(p) => spec_active_profile(*self) == Some(*p),
                None => spec_active_profile(*self) is None,
            },
    {
        proof {
            lemma_first_with_id_found(self.profiles@, self.active_profile_id@);
        }
        match find_profile(&self.profiles, &self.active_profile_id) {
            Some(k) => Some(&self.profiles[k]),
            None => {
                if self.profiles.len() > 0 {
                    Some(&self.profiles[0])
                } else {
                    None
                }
            },
        }
    }
}


/// `ps` without the profiles whose id is `id`, the others in order.
pub open spec fn without_id(ps: Seq<Profile>, id: Seq<char>) -> Seq<Profile>
    decreases ps.len(),
{
    if ps.len() == 0 {
        seq![]
    } else {
        let rest = without_id(ps.drop_last(), id);
        if ps.last().id@ == id {
            rest
        } else {
            rest.push(ps.last())
        }
    }
}

/// The profile id a request names: its `id`, when present and not empty.
pub open spec fn input_id(input: ProfileInput) -> Option<Seq<char>> {
    match input.id {
        Some(i) => if i@.len() > 0 {
            Some(i@)
        } else {
            None
        },
        None => None,
    }
}

/// `b` equals `a` in everything but the profile list and the active id.
pub open spec fn same_settings(a: AppConfig, b: AppConfig) -> bool {
    &&& b.version == a.version
    &&& b.llama_cpp_path == a.llama_cpp_path
    &&& b.models_dir == a.models_dir
    &&& b.autostart == a.autostart
    &&& b.active_model_path == a.active_model_path
}

/// `new` is `old` with the profile at `k` given a new name and arguments.
pub open spec fn edited_at(old: Seq<Profile>, new: Seq<Profile>, k: int, name: String, args: String) -> bool {
    &&& new.len() == old.len()
    &&& 0 <= k < old.len()
    &&& forall|j: int| 0 <= j < old.len() && j != k ==> new[j] == old[j]
    &&& new[k].id == old[k].id
    &&& new[k].name == name
    &&& new[k].args == args
}

/// `r` is an error with message `m`.
pub open spec fn err_is<T>(r: Result<T, String>, m: Seq<char>) -> bool {
    r matches Err(e) && e@ == m
}

/// Error text: the last profile cannot be deleted.
pub open spec fn last_profile_message() -> Seq<char> {
    "Cannot delete the last profile"@
}

/// Error text: no profile has the given id.
pub open spec fn profile_not_found_message() -> Seq<char> {
    "Profile not found"@
}

/// Error text: a profile needs a name.
pub open spec fn empty_name_message() -> Seq<char> {
    "Profile name cannot be empty"@
}

/// A lower-case hexadecimal digit.
pub open spec fn is_lower_hex(c: char) -> bool {
    ('0' <= c && c <= '9') || ('a' <= c && c <= 'f')
}

/// Whether `s` is a version-4 UUID in hyphenated lower-case form: 36
/// characters, hyphens after the 8th, 12th, 16th and 20th hexadecimal
/// digit, and `4` as the version digit.
pub open spec fn is_uuid_v4_text(s: Seq<char>) -> bool {
    &&& s.len() == 36
    &&& forall|k: int|
        0 <= k < 36 ==> if k == 8 || k == 13 || k == 18 || k == 23 {
            s[k] == '-'
        } else {
            is_lower_hex(#[trigger] s[k])
        }
    &&& s[14] == '4'
}

/// A fresh profile id: `uuid::Uuid::new_v4()` as `to_string` writes it, a
/// random version-4 UUID in hyphenated lower-case form. The contract states
/// the shape of that text, not which digits come out.
#[verifier::external_body]
pub fn new_profile_id() -> (r: String)
    ensures
        is_uuid_v4_text(r@),
{
    uuid::Uuid::new_v4().to_string()
}

proof fn lemma_without_id(ps: Seq<Profile>, id: Seq<char>)
    ensures
        forall|x: Seq<char>| #[trigger]
            has_profile(without_id(ps, id), x) <==> (has_profile(ps, x) && x != id),
        (exists|i: int| 0 <= i < ps.len() && (#[trigger] ps[i]).id@ != id) ==> without_id(ps, id).len()
            > 0,
        without_id(ps, id).len() <= ps.len(),
    decreases ps.len(),
{
    if ps.len() > 0 {
        let init = ps.drop_last();
        lemma_without_id(init, id);
        let rest = without_id(init, id);
        let w = without_id(ps, id);
        let last = ps.last();
        assert(w == if last.id@ == id {
            rest
        } else {
            rest.push(last)
        });
        assert forall|x: Seq<char>| #[trigger]
            has_profile(w, x) <==> (has_profile(ps, x) && x != id) by {
            if has_profile(ps, x) && x != id {
                let i = choose|i: int| 0 <= i < ps.len() && (#[trigger] ps[i]).id@ == x;
                if i < init.len() {
                    assert(init[i] == ps[i]);
                    assert(has_profile(init, x));
                    assert(has_profile(rest, x));
                    let j = choose|j: int| 0 <= j < rest.len() && (#[trigger] rest[j]).id@ == x;
                    assert(w[j] == rest[j]);
                } else {
                    assert(ps[i] == last);
                    assert(w[rest.len() as int] == last);
                }
            }
            if has_profile(w, x) {
                let j = choose|j: int| 0 <= j < w.len() && (#[trigger] w[j]).id@ == x;
                if j < rest.len() {
                    assert(w[j] == rest[j]);
                    assert(has_profile(rest, x));
                    let i = choose|i: int| 0 <= i < init.len() && (#[trigger] init[i]).id@ == x;
                    assert(ps[i] == init[i]);
                } else {
                    assert(w[j] == last);
                    assert(ps[ps.len() - 1] == last);
                }
            }
        }
        if exists|i: int| 0 <= i < ps.len() && (#[trigger] ps[i]).id@ != id {
            let i = choose|i: int| 0 <= i < ps.len() && (#[trigger] ps[i]).id@ != id;
            if i < init.len() {
                assert(init[i] == ps[i]);
            }
        }
    }
}

impl AppConfig {
    /// Stores the paths and the autostart choice from the settings window.
    pub fn apply_settings(&mut self, llama_cpp_path: String, models_dir: String, autostart: bool)
        ensures
            final(self).llama_cpp_path == llama_cpp_path,
            final(self).models_dir == models_dir,
            final(self).autostart == autostart,
            final(self).version == old(self).version,
            final(self).active_profile_id == old(self).active_profile_id,
            final(self).active_model_path == old(self).active_model_path,
            final(self).profiles == old(self).profiles,
            config_wf(*old(self)) ==> config_wf(*final(self)),
    {
        self.llama_cpp_path = llama_cpp_path;
        self.models_dir = models_dir;
        self.autostart = autostart;
    }

    /// Chooses the model to load, or none.
    pub fn set_active_model(&mut self, path: Option<String>)
        ensures
            final(self).active_model_path == path,
            final(self).version == old(self).version,
            final(self).llama_cpp_path == old(self).llama_cpp_path,
            final(self).models_dir == old(self).models_dir,
            final(self).autostart == old(self).autostart,
            final(self).active_profile_id == old(self).active_profile_id,
            final(self).profiles == old(self).profiles,
            config_wf(*old(self)) ==> config_wf(*final(self)),
    {
        self.active_model_path = path;
    }

    /// Makes the profile with id `profile_id` the active one; refuses an id
    /// that no profile has.
    pub fn set_active_profile(&mut self, profile_id: String) -> (r: Result<(), String>)
        ensures
            r is Ok <==> has_profile(old(self).profiles@, profile_id@),
            r is Ok ==> final(self).active_profile_id == profile_id,
            r is Err ==> final(self).active_profile_id == old(self).active_profile_id,
            r matches Err(e) ==> e@ == profile_not_found_message(),
            r is Ok ==> (spec_active_profile(*final(self)) matches Some(p) && p.id@ == profile_id@),
            same_settings(*old(self), *final(self)),
            final(self).profiles == old(self).profiles,
            config_wf(*old(self)) ==> config_wf(*final(self)),
    {
        proof {
            lemma_first_with_id_found(self.profiles@, profile_id@);
        }
        match find_profile(&self.profiles, &profile_id) {
            Some(_) => {
                self.active_profile_id = profile_id;
                proof {
                    lemma_first_with_id_found(self.profiles@, self.active_profile_id@);
                }
                Ok(())
            },
            None => Err("Profile not found".to_string()),
        }
    }

    /// Deletes every profile with id `profile_id`, refusing to delete the
    /// last profile; when the active profile goes, the first remaining one
    /// becomes active (so one must remain then).
    pub fn delete_profile(&mut self, profile_id: &String) -> (r: Result<(), String>)
        requires
            old(self).profiles@.len() > 1 && old(self).active_profile_id@ == profile_id@ ==> exists|
                i: int,
            |
                0 <= i < old(self).profiles@.len() && (#[trigger] old(self).profiles@[i]).id@
                    != profile_id@,
        ensures
            r is Ok <==> old(self).profiles@.len() > 1,
            r matches Err(e) ==> e@ == last_profile_message() && *final(self) == *old(self),
            r is Ok ==> final(self).profiles@ == without_id(old(self).profiles@, profile_id@)
                && final(self).active_profile_id@ == if old(self).active_profile_id@ == profile_id@ {
                final(self).profiles@[0].id@
            } else {
                old(self).active_profile_id@
            },
            r is Ok && old(self).active_profile_id@ == profile_id@ ==> final(self).profiles@.len() > 0,
            same_settings(*old(self), *final(self)),
            config_wf(*old(self)) ==> config_wf(*final(self)),
            r is Ok ==> !has_profile(final(self).profiles@, profile_id@),
            r is Ok && final(self).profiles@.len() > 0 ==> (spec_active_profile(*final(self)) matches Some(
                p,
            ) && p.id@ != profile_id@),
    {
        if self.profiles.len() <= 1 {
            return Err("Cannot delete the last profile".to_string());
        }
        proof {
            lemma_without_id(self.profiles@, profile_id@);
        }
        let mut rest: Vec<Profile> = Vec::new();
        std::mem::swap(&mut rest, &mut self.profiles);
        let ghost orig = rest@;
        let mut kept: Vec<Profile> = Vec::new();
        let ghost mut k: int = 0;
        assert(orig.take(0) =~= Seq::<Profile>::empty());
        assert(orig.skip(0) =~= orig);
        while rest.len() > 0
            invariant
                0 <= k <= orig.len(),
                rest@ == orig.skip(k),
                kept@ == without_id(orig.take(k), profile_id@),
            decreases rest.len(),
        {
            let p = rest.remove(0);
            proof {
                assert(p == orig[k]);
                assert(orig.take(k + 1).drop_last() =~= orig.take(k));
                assert(orig.take(k + 1).last() == orig[k]);
                assert(rest@ =~= orig.skip(k + 1));
                k = k + 1;
            }
            if p.id != *profile_id {
                kept.push(p);
            }
        }
        assert(orig.take(k) =~= orig);
        self.profiles = kept;
        if self.active_profile_id == *profile_id {
            self.active_profile_id = self.profiles[0].id.clone();
        }
        proof {
            lemma_without_id(orig, profile_id@);
            lemma_first_with_id_found(self.profiles@, self.active_profile_id@);
            if self.profiles@.len() > 0 {
                let k = first_with_id(self.profiles@, self.active_profile_id@, 0);
                let q = if k >= 0 { k } else { 0 };
                assert(has_profile(self.profiles@, self.profiles@[q].id@));
            }
        }
        Ok(())
    }

    /// Creates or edits a profile. The arguments must pass
    /// `validate_profile_args` and the name must not be blank. A request
    /// with an id edits the first profile with that id; one without an id
    /// (or with an empty one) adds a profile with id `fresh_id` and makes it
    /// active.
    pub fn upsert_profile_with_id(&mut self, input: ProfileInput, fresh_id: String) -> (r: Result<(), String>)
        ensures
            same_settings(*old(self), *final(self)),
            config_wf(*old(self)) ==> config_wf(*final(self)),
            r is Err ==> *final(self) == *old(self),
            !profile_args_valid(input.args@) ==> err_is(r, if spec_split_args(input.args@) is None {
                unclosed_quote_message()
            } else {
                model_flag_message()
            }),
            profile_args_valid(input.args@) && trim_ws(input.name@).len() == 0 ==> err_is(r, empty_name_message()),
            profile_args_valid(input.args@) && trim_ws(input.name@).len() > 0 ==> match input_id(input) {
                Some(id) => if has_profile(old(self).profiles@, id) {
                    r is Ok && edited_at(
                        old(self).profiles@,
                        final(self).profiles@,
                        first_with_id(old(self).profiles@, id, 0),
                        input.name,
                        input.args,
                    ) && final(self).active_profile_id == old(self).active_profile_id
                } else {
                    err_is(r, profile_not_found_message())
                },
                None => r is Ok && final(self).profiles@.len() == old(self).profiles@.len() + 1
                    && final(self).profiles@.drop_last() == old(self).profiles@
                    && final(self).profiles@.last().id == fresh_id
                    && final(self).profiles@.last().name == input.name
                    && final(self).profiles@.last().args == input.args
                    && final(self).active_profile_id == fresh_id,
            },
            profile_args_valid(input.args@) && trim_ws(input.name@).len() > 0 && input_id(input) is None
                && !has_profile(old(self).profiles@, fresh_id@) ==> spec_active_profile(*final(self))
                == Some(final(self).profiles@.last()),
    {
        let ghost inp = input;
        let ProfileInput { id, name, args } = input;
        match validate_profile_args(args.as_str()) {
            Ok(()) => {},
            Err(e) => {
                return Err(e);
            },
        }
        let name_chars = chars_of(name.as_str());
        let trimmed = trim_chars(&name_chars, None);
        if trimmed.len() == 0 {
            return Err("Profile name cannot be empty".to_string());
        }
        let target: Option<String> = match id {
            Some(i) => if i.as_str().is_empty() {
                None
            } else {
                Some(i)
            },
            None => None,
        };
        assert(target matches Some(t) ==> input_id(inp) == Some(t@));
        assert(target is None ==> input_id(inp) is None);
        match target {
            Some(t) => {
                proof {
                    lemma_first_with_id_found(self.profiles@, t@);
                }
                match find_profile(&self.profiles, &t) {
                    Some(k) => {
                        let ghost before = self.profiles@;
                        let old_p = self.profiles.remove(k);
                        let edited = Profile { id: old_p.id, name, args };
                        self.profiles.insert(k, edited);
                        assert forall|j: int|
                            0 <= j < before.len() && j != k implies self.profiles@[j] == before[j] by {
                            if j < k {
                            } else {
                            }
                        }
                        proof {
                            let a = self.active_profile_id@;
                            if has_profile(before, a) {
                                let i = choose|i: int| 0 <= i < before.len() && (#[trigger] before[i]).id@ == a;
                                if i != k {
                                    assert(self.profiles@[i] == before[i]);
                                }
                                assert(self.profiles@[i].id@ == a);
                            }
                        }
                        Ok(())
                    },
                    None => Err("Profile not found".to_string()),
                }
            },
            None => {
                let ghost before = self.profiles@;
                self.profiles.push(Profile { id: fresh_id.clone(), name, args });
                assert(self.profiles@.drop_last() =~= before);
                self.active_profile_id = fresh_id;
                assert(self.profiles@[self.profiles@.len() - 1].id@ == self.active_profile_id@);
                proof {
                    let ps = self.profiles@;
                    lemma_first_with_id_found(ps, self.active_profile_id@);
                    let k = first_with_id(ps, self.active_profile_id@, 0);
                    if !has_profile(before, self.active_profile_id@) {
                        assert(has_profile(ps, self.active_profile_id@));
                        if k < ps.len() - 1 {
                            assert(ps[k] == before[k]);
                        }
                        assert(k == ps.len() - 1);
                    }
                }
                Ok(())
            },
        }
    }

    /// Creates or edits a profile as `upsert_profile_with_id` does, taking a
    /// freshly generated id for a new profile.
    pub fn upsert_profile(&mut self, input: ProfileInput) -> (r: Result<(), String>)
        ensures
            same_settings(*old(self), *final(self)),
            config_wf(*old(self)) ==> config_wf(*final(self)),
            r is Err ==> *final(self) == *old(self),
            !profile_args_valid(input.args@) ==> err_is(r, if spec_split_args(input.args@) is None {
                unclosed_quote_message()
            } else {
                model_flag_message()
            }),
            profile_args_valid(input.args@) && trim_ws(input.name@).len() == 0 ==> err_is(r, empty_name_message()),
            profile_args_valid(input.args@) && trim_ws(input.name@).len() > 0 ==> match input_id(input) {
                Some(id) => if has_profile(old(self).profiles@, id) {
                    r is Ok && edited_at(
                        old(self).profiles@,
                        final(self).profiles@,
                        first_with_id(old(self).profiles@, id, 0),
                        input.name,
                        input.args,
                    ) && final(self).active_profile_id == old(self).active_profile_id
                } else {
                    err_is(r, profile_not_found_message())
                },
                None => r is Ok && final(self).profiles@.len() == old(self).profiles@.len() + 1
                    && final(self).profiles@.drop_last() == old(self).profiles@
                    && final(self).profiles@.last().id == final(self).active_profile_id
                    && is_uuid_v4_text(final(self).active_profile_id@)
                    && final(self).profiles@.last().name == input.name
                    && final(self).profiles@.last().args == input.args,
            },
    {
        let fresh = match &input.id {
            Some(i) => if i.as_str().is_empty() {
                new_profile_id()
            } else {
                String::new()
            },
            None => new_profile_id(),
        };
        self.upsert_profile_with_id(input, fresh)
    }
}


/// What the file system says about the configured `llama.cpp` path (with
/// surrounding whitespace removed) and about the two server binaries that
/// a directory there may hold.
#[derive(Clone, Copy, Debug)]
pub struct BinaryProbe {
    /// The path names a file.
    pub is_file: bool,
    /// The path names a directory.
    pub is_dir: bool,
    /// `llama-server.exe` inside that directory is a file.
    pub exe_in_dir: bool,
    /// `llama-server` inside that directory is a file.
    pub server_in_dir: bool,
}

/// Where the server binary is, relative to the configured path.
#[derive(Clone, Copy, Debug, PartialEq, Eq, Structural)]
pub enum BinaryLocation {
    /// The configured path itself.
    Given,
    /// `llama-server.exe` inside the configured directory.
    DirExe,
    /// `llama-server` inside the configured directory.
    DirServer,
}

/// Where the binary is for the trimmed configured path `raw`, or the text
/// of the error.
pub open spec fn spec_resolve_binary(raw: Seq<char>, p: BinaryProbe) -> Result<BinaryLocation, Seq<char>> {
    if raw.len() == 0 {
        Err("Путь к llama.cpp не задан"@)
    } else if p.is_file {
        Ok(BinaryLocation::Given)
    } else if p.is_dir {
        if p.exe_in_dir {
            Ok(BinaryLocation::DirExe)
        } else if p.server_in_dir {
            Ok(BinaryLocation::DirServer)
        } else {
            Err("В папке "@ + raw + " не найден llama-server.exe"@)
        }
    } else {
        Err("Путь к llama.cpp не существует: "@ + raw)
    }
}

impl AppConfig {
    /// The configured `llama.cpp` path without surrounding whitespace.
    pub fn llama_binary_path(&self) -> (r: String)
        ensures
            r@ == trim_ws(self.llama_cpp_path@),
    {
        let v = chars_of(self.llama_cpp_path.as_str());
        let t = trim_chars(&v, None);
        string_of(&t)
    }

    /// Finds the `llama-server` binary: the configured path when it is a
    /// file, or else `llama-server.exe` or `llama-server` in it when it is a
    /// directory. `probe` reports on the configured path with surrounding
    /// whitespace removed.
    pub fn resolve_llama_binary(&self, probe: &BinaryProbe) -> (r: Result<BinaryLocation, String>)
        ensures
            match r {
                Ok(l) => spec_resolve_binary(trim_ws(self.llama_cpp_path@), *probe) == Ok::<
                    BinaryLocation,
                    Seq<char>,
                >(l),
                Err(e) => spec_resolve_binary(trim_ws(self.llama_cpp_path@), *probe) == Err::<
                    BinaryLocation,
                    Seq<char>,
                >(e@),
            },
    {
        let v = chars_of(self.llama_cpp_path.as_str());
        let raw = trim_chars(&v, None);
        if raw.len() == 0 {
            return Err("Путь к llama.cpp не задан".to_string());
        }
        if probe.is_file {
            return Ok(BinaryLocation::Given);
        }
        if probe.is_dir {
            if probe.exe_in_dir {
                return Ok(BinaryLocation::DirExe);
            }
            if probe.server_in_dir {
                return Ok(BinaryLocation::DirServer);
            }
            let mut m: Vec<char> = Vec::new();
            push_lit(&mut m, "В папке ");
            push_all(&mut m, &raw);
            push_lit(&mut m, " не найден llama-server.exe");
            return Err(string_of(&m));
        }
        let mut m: Vec<char> = Vec::new();
        push_lit(&mut m, "Путь к llama.cpp не существует: ");
        push_all(&mut m, &raw);
        Err(string_of(&m))
    }
}

} // verus!
