use vstd::prelude::*;
use vstd::string::StrSliceExecFns;
use vstd::string::StringExecFns;
use crate::error::Error;
use crate::strutil::after_last;
use crate::strutil::all_digits;
use crate::strutil::dec_value;
use crate::strutil::lower_seq;
use crate::strutil::spec_contains;
use crate::strutil::upto_char;

verus! {

/// One Java runtime found on the machine.
pub struct JavaInstallation {
    pub path: String,
    pub version: String,
    pub vendor: String,
    pub architecture: String,
    pub is_64bit: bool,
    pub is_default: bool,
    pub capabilities: JavaCapabilities,
}

pub struct JavaCapabilities {
    pub supports_minecraft: bool,
    pub max_memory: Option<u64>,
    pub supports_javafx: bool,
    pub supports_awt: bool,
}

impl Default for JavaCapabilities {
    fn default() -> (r: JavaCapabilities)
        ensures
            r.supports_minecraft == true,
            r.max_memory is None,
            r.supports_javafx == false,
            r.supports_awt == true,
    {
        JavaCapabilities {
            supports_minecraft: true,
            max_memory: None,
            supports_javafx: false,
            supports_awt: true,
        }
    }
}

/// The known Java runtimes, keyed by "vendor version", with an optional
/// extra directory to scan and the key of the preferred runtime.
/// Directory scanning and process probing happen in the caller; the
/// manager holds what they found and decides over it.
pub struct JavaManager {
    pub installations: Vec<(String, JavaInstallation)>,
    pub java_directory: Option<String>,
    pub default_installation: Option<String>,
}

/// The numeric value of the major component of a version string: the
/// digits before the first dot, when they parse within `bound`;
/// otherwise nothing.
pub open spec fn spec_major_version(v: Seq<char>, bound: int) -> Option<int> {
    let pre = upto_char(v, '.');
    if pre.len() > 0 && all_digits(pre) && dec_value(pre) <= bound {
        Some(dec_value(pre))
    } else {
        None
    }
}

/// The score the manager gives a runtime when choosing a default: a
/// version component (newer long-term releases score best), a bonus for
/// a 64-bit runtime, and a vendor component.
pub open spec fn spec_java_score(inst: JavaInstallation) -> int {
    spec_version_score(inst.version@) + (if inst.is_64bit {
        25int
    } else {
        0int
    }) + spec_vendor_score(inst.vendor@)
}

pub open spec fn spec_version_score(v: Seq<char>) -> int {
    match spec_major_version(v, u32::MAX as int) {
        Some(major) => {
            if major == 21 {
                100
            } else if major == 17 {
                90
            } else if major == 11 {
                70
            } else if major == 8 {
                50
            } else if major > 21 {
                80
            } else {
                20
            }
        },
        None => 0,
    }
}

pub open spec fn spec_vendor_score(vendor: Seq<char>) -> int {
    let lv = lower_seq(vendor);
    if spec_contains(lv, lower_seq("adoptium"@)) || spec_contains(lv, lower_seq("eclipse"@)) {
        30
    } else if spec_contains(lv, lower_seq("openjdk"@)) {
        25
    } else if spec_contains(lv, lower_seq("oracle"@)) {
        20
    } else if spec_contains(lv, lower_seq("amazon"@)) {
        25
    } else if spec_contains(lv, lower_seq("azul"@)) {
        20
    } else if spec_contains(lv, lower_seq("ibm"@)) {
        15
    } else {
        10
    }
}

/// A runtime can run the game when the major component of its version
/// parses as a number of at most 255 and is at least 8.
pub open spec fn spec_minecraft_compatible(v: Seq<char>) -> bool {
    match spec_major_version(v, 255) {
        Some(major) => major >= 8,
        None => false,
    }
}

impl JavaManager {
    pub fn new(java_directory: Option<String>) -> (r: Result<JavaManager, Error>)
        ensures
            r matches Ok(m) && m.installations@.len() == 0 && m.java_directory == java_directory
                && m.default_installation is None,
    {
        Ok(JavaManager { installations: Vec::new(), java_directory, default_installation: None })
    }

    /// Records one discovered runtime under its key, replacing any entry
    /// already held under the same key.
    pub fn add_installation(&mut self, key: String, installation: JavaInstallation)
        ensures
            final(self).java_directory == old(self).java_directory,
            final(self).default_installation == old(self).default_installation,
            exists|i: int|
                0 <= i < final(self).installations@.len() && (#[trigger] final(
                    self).installations@[i]).0@ == key@ && final(self).installations@[i].1
                    == installation,
            forall|i: int|
                0 <= i < final(self).installations@.len() && (#[trigger] final(
                    self).installations@[i]).0@ != key@ ==> old(self).installations@.contains(
                    final(self).installations@[i]),
    {
        let ghost gkey = key@;
        let n = self.installations.len();
        let mut i: usize = 0;
        while i < n
            invariant
                gkey == key@,
                n == self.installations@.len(),
                i <= n,
                *self == *old(self),
                forall|k: int| 0 <= k < i ==> (#[trigger] self.installations@[k]).0@ != gkey,
            decreases n - i,
        {
            if crate::strutil::str_eq(key.as_str(), self.installations[i].0.as_str()) {
                let ghost pre = self.installations@;
                self.installations[i].1 = installation;
                proof {
                    assert(self.installations@[i as int].0@ == gkey);
                    assert forall|k: int|
                        0 <= k < self.installations@.len() && (
                        #[trigger] self.installations@[k]).0@ != gkey implies old(
                        self).installations@.contains(self.installations@[k]) by {
                        assert(k != i);
                        assert(self.installations@[k] == pre[k]);
                        assert(pre.contains(pre[k]));
                    }
                }
                return ;
            }
            i += 1;
        }
        let ghost pre = self.installations@;
        self.installations.push((key, installation));
        proof {
            let v = self.installations@;
            assert(v[v.len() - 1].0@ == gkey && v[v.len() - 1].1 == installation);
            assert forall|k: int|
                0 <= k < v.len() && (#[trigger] v[k]).0@ != gkey implies old(
                self).installations@.contains(v[k]) by {
                assert(v[k] == pre[k]);
                assert(pre.contains(pre[k]));
            }
        }
    }

    /// Chooses the default runtime: the first one whose score no later
    /// entry beats strictly, marks it default, and remembers its key. An
    /// empty table leaves everything unchanged.
    pub fn select_default_installation(&mut self)
        ensures
            final(self).java_directory == old(self).java_directory,
            old(self).installations@.len() == 0 ==> *final(self) == *old(self),
            old(self).installations@.len() > 0 ==> exists|i: int|
                {
                    &&& 0 <= i < old(self).installations@.len()
                    &&& final(self).default_installation matches Some(k) && k@ == (#[trigger] old(
                        self).installations@[i]).0@
                    &&& forall|j: int|
                        0 <= j < old(self).installations@.len() ==> spec_java_score(
                            (#[trigger] old(self).installations@[j]).1,
                        ) <= spec_java_score(old(self).installations@[i].1)
                },
    {
        let n = self.installations.len();
        if n == 0 {
            return ;
        }
        let mut best: usize = 0;
        let mut best_score = calculate_java_score_of(&self.installations[0].1);
        let mut i: usize = 1;
        while i < n
            invariant
                *self == *old(self),
                n == self.installations@.len(),
                1 <= i <= n,
                best < i,
                best_score == spec_java_score(self.installations@[best as int].1),
                forall|j: int|
                    0 <= j < i ==> spec_java_score((#[trigger] self.installations@[j]).1)
                        <= best_score,
            decreases n - i,
        {
            let s = calculate_java_score_of(&self.installations[i].1);
            if s > best_score {
                best = i;
                best_score = s;
            }
            i += 1;
        }
        let key = clone_str(&self.installations[best].0);
        self.default_installation = Some(key);
        let ghost pre = self.installations@;
        self.installations[best].1.is_default = true;
        proof {
            let b = best as int;
            assert(self.installations@[b].0@ == old(self).installations@[b].0@);
            assert(spec_java_score(self.installations@[b].1) == spec_java_score(pre[b].1));
        }
    }

    /// The score used to rank runtimes.
    pub fn calculate_java_score(&self, installation: &JavaInstallation) -> (r: u32)
        ensures
            r == spec_java_score(*installation),
    {
        calculate_java_score_of(installation)
    }

    /// On this platform a Java launcher binary is a file named `java`.
    pub fn is_java_executable(&self, path: &str) -> (r: bool)
        ensures
            r == (after_last(path@, '/') == "java"@),
    {
        let name = crate::strutil::file_name_of(path);
        proof {
            let a = choose|a: int|
                {
                    &&& 0 <= a <= path@.len()
                    &&& name@ == path@.subrange(a, path@.len() as int)
                    &&& forall|k: int| a <= k < path@.len() ==> path@[k] != '/'
                    &&& (a > 0 ==> path@[a - 1] == '/')
                };
            if a == 0 {
                crate::strutil::lemma_after_last_absent(path@, '/');
                assert(path@.subrange(0, path@.len() as int) =~= path@);
            } else {
                crate::strutil::lemma_after_last_at(path@, '/', a - 1);
            }
        }
        crate::strutil::str_eq(name.as_str(), "java")
    }

    /// The vendor read from the probe output: a known brand when a brand
    /// keyword occurs in the version banner, else the value of the
    /// `java.vendor` property, else `Unknown`.
    pub fn parse_java_vendor(&self, version_output: &str, properties_output: &str) -> (r: String)
        ensures
            r@ == "Eclipse Adoptium"@ || r@ == "OpenJDK"@ || r@ == "Oracle"@ || r@
                == "Amazon Corretto"@ || r@ == "Azul Zulu"@ || r@ == "IBM Semeru"@ || r@
                == "Unknown"@ || (exists|i: int, j: int|
                0 <= i <= j <= properties_output@.len() && r@ == properties_output@.subrange(i, j)),
    {
        let lines = crate::strutil::split_char(version_output, '\n');
        let ln = lines.len();
        let mut i: usize = 0;
        while i < ln
            invariant
                i <= ln,
                ln == lines@.len(),
            decreases ln - i,
        {
            let line = lines[i].as_str();
            if crate::strutil::contains_ci(line, "adoptium") || crate::strutil::contains_ci(
                line,
                "eclipse",
            ) {
                return "Eclipse Adoptium".to_owned();
            }
            if crate::strutil::contains_ci(line, "openjdk") {
                return "OpenJDK".to_owned();
            }
            if crate::strutil::contains_ci(line, "oracle") {
                return "Oracle".to_owned();
            }
            if crate::strutil::contains_ci(line, "amazon") {
                return "Amazon Corretto".to_owned();
            }
            if crate::strutil::contains_ci(line, "azul") {
                return "Azul Zulu".to_owned();
            }
            if crate::strutil::contains_ci(line, "ibm") {
                return "IBM Semeru".to_owned();
            }
            i += 1;
        }
        let plines = crate::strutil::split_char(properties_output, '\n');
        let pn = plines.len();
        let mut j: usize = 0;
        while j < pn
            invariant
                j <= pn,
                pn == plines@.len(),
                crate::strutil::spec_join(plines.deep_view(), '\n') == properties_output@,
            decreases pn - j,
        {
            let line = plines[j].as_str();
            if crate::strutil::contains_sub(line, "java.vendor") {
                let value = crate::strutil::suffix_after_char(line, '=');
                if value.as_str().unicode_len() > 0 {
                    let trimmed = crate::strutil::trim_ascii(value.as_str());
                    proof {
                        assert(plines.deep_view()[j as int] == line@);
                        lemma_trimmed_in_whole(
                            trimmed@,
                            value@,
                            plines.deep_view(),
                            j as int,
                            properties_output@,
                        );
                    }
                    return trimmed;
                }
            }
            j += 1;
        }
        "Unknown".to_owned()
    }

    /// The version read from the probe output: the quoted or bare token
    /// after the word `version`. Without such a line the probe output is
    /// unusable and a Java error comes back.
    pub fn parse_java_version(&self, output: &str) -> (r: Result<String, Error>)
        ensures
            r matches Err(e) ==> e matches Error::Java(_),
    {
        let lines = crate::strutil::split_char(output, '\n');
        let ln = lines.len();
        let mut i: usize = 0;
        while i < ln
            invariant
                i <= ln,
                ln == lines@.len(),
            decreases ln - i,
        {
            let line = lines[i].as_str();
            match crate::strutil::find_sub(line, "version") {
                Some(_) => {
                    match crate::strutil::suffix_after_sub(line, "version") {
                        Some(rest) => {
                            match crate::strutil::find_char(rest.as_str(), '"') {
                                Some(_) => {
                                    let tail = crate::strutil::suffix_after_char(
                                        rest.as_str(),
                                        '"',
                                    );
                                    let quoted = crate::strutil::prefix_before_char(
                                        tail.as_str(),
                                        '"',
                                    );
                                    return Ok(quoted);
                                },
                                None => {
                                    let trimmed = crate::strutil::trim_ascii(rest.as_str());
                                    match crate::strutil::first_token(trimmed.as_str()) {
                                        Some(tok) => {
                                            return Ok(tok);
                                        },
                                        None => {},
                                    }
                                },
                            }
                        },
                        None => {},
                    }
                },
                None => {},
            }
            i += 1;
        }
        Err(Error::Java("Could not parse Java version".to_owned()))
    }

    /// The machine architecture read from the probe output: the value of
    /// the `os.arch` property, else the architecture this build targets.
    pub fn parse_java_architecture(&self, properties_output: &str) -> (r: String)
        ensures
            r@ == "amd64"@ || (exists|i: int, j: int|
                0 <= i <= j <= properties_output@.len() && r@ == properties_output@.subrange(i, j)),
    {
        let plines = crate::strutil::split_char(properties_output, '\n');
        let pn = plines.len();
        let mut j: usize = 0;
        while j < pn
            invariant
                j <= pn,
                pn == plines@.len(),
                crate::strutil::spec_join(plines.deep_view(), '\n') == properties_output@,
            decreases pn - j,
        {
            let line = plines[j].as_str();
            if crate::strutil::contains_sub(line, "os.arch") {
                let value = crate::strutil::suffix_after_char(line, '=');
                if value.as_str().unicode_len() > 0 {
                    let trimmed = crate::strutil::trim_ascii(value.as_str());
                    proof {
                        assert(plines.deep_view()[j as int] == line@);
                        lemma_trimmed_in_whole(
                            trimmed@,
                            value@,
                            plines.deep_view(),
                            j as int,
                            properties_output@,
                        );
                    }
                    return trimmed;
                }
            }
            j += 1;
        }
        "amd64".to_owned()
    }

    /// An upper memory bound is reported only when the probe output shows
    /// a runtime version property at all; this build targets a 64-bit
    /// machine, where 32 GiB is assumed addressable.
    pub fn detect_max_memory(&self, properties_output: &str) -> (r: Option<u64>)
        ensures
            r == if spec_contains(properties_output@, "java.runtime.version"@) {
                Some(34359738368u64)
            } else {
                None::<u64>
            },
    {
        if crate::strutil::contains_sub(properties_output, "java.runtime.version") {
            Some(32 * 1024 * 1024 * 1024)
        } else {
            None
        }
    }

    /// Headless-awt detection: without a `java.awt.headless` property the
    /// runtime is taken to support AWT; a property line saying `true`
    /// denies it.
    pub fn check_awt_support(&self, properties_output: &str) -> (r: bool)
        ensures
            !spec_contains(properties_output@, "java.awt.headless"@) ==> r == true,
            !r ==> spec_contains(properties_output@, "java.awt.headless"@) && spec_contains(
                properties_output@,
                "true"@,
            ),
    {
        let plines = crate::strutil::split_char(properties_output, '\n');
        let pn = plines.len();
        let mut j: usize = 0;
        while j < pn
            invariant
                j <= pn,
                pn == plines@.len(),
                crate::strutil::spec_join(plines.deep_view(), '\n') == properties_output@,
            decreases pn - j,
        {
            let line = plines[j].as_str();
            if crate::strutil::contains_sub(line, "java.awt.headless") {
                let has_true = crate::strutil::contains_sub(line, "true");
                proof {
                    let parts = plines.deep_view();
                    assert(parts[j as int] == line@);
                    crate::strutil::lemma_join_part_subrange(parts, '\n', j as int);
                    let off = choose|off: int|
                        {
                            &&& 0 <= off
                            &&& off + parts[j as int].len() <= properties_output@.len()
                            &&& parts[j as int] == #[trigger] properties_output@.subrange(
                                off,
                                off + parts[j as int].len(),
                            )
                        };
                    crate::strutil::lemma_subrange_contains(
                        properties_output@,
                        off,
                        parts[j as int],
                        "java.awt.headless"@,
                    );
                    if has_true {
                        crate::strutil::lemma_subrange_contains(
                            properties_output@,
                            off,
                            parts[j as int],
                            "true"@,
                        );
                    }
                }
                return !has_true;
            }
            j += 1;
        }
        true
    }

    pub fn get_installations(&self) -> (r: &Vec<(String, JavaInstallation)>)
        ensures
            r@ == self.installations@,
    {
        &self.installations
    }

    pub fn get_installation(&self, key: &str) -> (r: Option<&JavaInstallation>)
        ensures
            match r {
                Some(inst) => exists|i: int|
                    0 <= i < self.installations@.len() && (#[trigger] self.installations@[i]).0@
                        == key@ && self.installations@[i].1 == *inst,
                None => forall|i: int|
                    0 <= i < self.installations@.len() ==> (#[trigger] self.installations@[i]).0@
                        != key@,
            },
    {
        let n = self.installations.len();
        let mut i: usize = 0;
        while i < n
            invariant
                n == self.installations@.len(),
                i <= n,
                forall|k: int| 0 <= k < i ==> (#[trigger] self.installations@[k]).0@ != key@,
            decreases n - i,
        {
            if crate::strutil::str_eq(key, self.installations[i].0.as_str()) {
                proof {
                    assert(self.installations@[i as int].0@ == key@);
                }
                return Some(&self.installations[i].1);
            }
            i += 1;
        }
        None
    }

    pub fn get_default_installation(&self) -> (r: Option<&JavaInstallation>)
        ensures
            self.default_installation is None ==> r is None,
    {
        match &self.default_installation {
            Some(key) => self.get_installation(key.as_str()),
            None => None,
        }
    }

    /// Makes the runtime under `key` the default; unknown keys are
    /// refused. The previous default's flag is cleared.
    pub fn set_default_installation(&mut self, key: &str) -> (r: Result<(), Error>)
        ensures
            match r {
                Ok(_) => final(self).default_installation matches Some(k) && k@ == key@,
                Err(e) => e matches Error::Java(_) && *final(self) == *old(self) && (forall|i: int|
                    0 <= i < old(self).installations@.len() ==> (#[trigger] old(
                    self).installations@[i]).0@ != key@),
            },
    {
        let n = self.installations.len();
        let mut i: usize = 0;
        let mut found = false;
        while i < n
            invariant
                *self == *old(self),
                n == self.installations@.len(),
                i <= n,
                !found ==> forall|k: int|
                    0 <= k < i ==> (#[trigger] self.installations@[k]).0@ != key@,
                found ==> i == n,
            decreases n - i,
        {
            if crate::strutil::str_eq(key, self.installations[i].0.as_str()) {
                found = true;
                i = n;
            } else {
                i += 1;
            }
        }
        if !found {
            return Err(Error::Java("Installation not found".to_owned()));
        }
        // clear the old default's flag
        let n2 = self.installations.len();
        let mut j: usize = 0;
        while j < n2
            invariant
                n2 == self.installations@.len(),
                j <= n2,
                self.default_installation == old(self).default_installation,
            decreases n2 - j,
        {
            if self.installations[j].1.is_default {
                self.installations[j].1.is_default = false;
            }
            j += 1;
        }
        // set the new one
        let n3 = self.installations.len();
        let mut m: usize = 0;
        while m < n3
            invariant
                n3 == self.installations@.len(),
                m <= n3,
                self.default_installation == old(self).default_installation,
            decreases n3 - m,
        {
            if crate::strutil::str_eq(key, self.installations[m].0.as_str()) {
                self.installations[m].1.is_default = true;
                m = n3;
            } else {
                m += 1;
            }
        }
        self.default_installation = Some(key.to_owned());
        Ok(())
    }

    pub fn update_java_directory(&mut self, new_directory: Option<String>)
        ensures
            final(self).java_directory == new_directory,
            final(self).installations@ == old(self).installations@,
            final(self).default_installation == old(self).default_installation,
    {
        self.java_directory = new_directory;
    }

    /// Whether a runtime can run the given game version; the game version
    /// itself does not narrow the answer further.
    pub fn validate_java_for_minecraft(
        &self,
        installation: &JavaInstallation,
        _minecraft_version: &str,
    ) -> (r: bool)
        ensures
            r == spec_minecraft_compatible(installation.version@),
    {
        self.check_minecraft_compatibility(installation.version.as_str())
    }

    /// A major version of at least 8 is needed.
    pub fn check_minecraft_compatibility(&self, java_version: &str) -> (r: bool)
        ensures
            r == spec_minecraft_compatible(java_version@),
    {
        let pre = crate::strutil::prefix_before_char(java_version, '.');
        match crate::strutil::parse_u32(pre.as_str()) {
            Some(v) => v <= 255 && v >= 8,
            None => false,
        }
    }

    /// Which Java major version the given game version wants: 17 from
    /// release 1.17 on, 8 before.
    pub fn get_recommended_java_for_minecraft(&self, minecraft_version: &str) -> (r: Option<u8>)
        ensures
            r == Some(spec_recommended_java(minecraft_version@)),
    {
        match crate::strutil::find_char(minecraft_version, '.') {
            None => {
                proof {
                    if crate::strutil::spec_contains(minecraft_version@, seq!['.']) {
                        let w = choose|w: int|
                            crate::strutil::match_at(minecraft_version@, seq!['.'], w);
                        let p = seq!['.'];
                        assert(p.len() == 1 && p[0] == '.');
                        assert(minecraft_version@[w + 0] == p[0]);
                    }
                }
                return Some(8);
            },
            Some(d) => {
                proof {
                    assert(crate::strutil::match_at(minecraft_version@, seq!['.'], d as int));
                }
            },
        }
        let rest1 = crate::strutil::suffix_after_char(minecraft_version, '.');
        let major_str = crate::strutil::prefix_before_char(rest1.as_str(), '.');
        let rest2 = crate::strutil::suffix_after_char(rest1.as_str(), '.');
        let minor_str = crate::strutil::prefix_before_char(rest2.as_str(), '.');
        let major = parse_or_zero(major_str.as_str());
        let minor = parse_or_zero(minor_str.as_str());
        if major > 1 || (major == 1 && minor >= 17) {
            Some(17)
        } else {
            Some(8)
        }
    }
}

/// The numeric value of a segment, with 0 for anything that does not
/// parse as a number up to 255.
pub open spec fn spec_parse_or_zero(s: Seq<char>) -> int {
    if s.len() > 0 && all_digits(s) && dec_value(s) <= 255 {
        dec_value(s)
    } else {
        0
    }
}

/// The recommended Java major version for a game version string.
pub open spec fn spec_recommended_java(v: Seq<char>) -> u8 {
    if !spec_contains(v, seq!['.']) {
        8u8
    } else {
        let rest1 = crate::strutil::after_first(v, '.');
        let major = spec_parse_or_zero(upto_char(rest1, '.'));
        let minor = spec_parse_or_zero(upto_char(crate::strutil::after_first(rest1, '.'), '.'));
        if major > 1 || (major == 1 && minor >= 17) {
            17u8
        } else {
            8u8
        }
    }
}

fn parse_or_zero(s: &str) -> (r: u8)
    ensures
        r == spec_parse_or_zero(s@),
{
    match crate::strutil::parse_u32(s) {
        Some(v) => if v <= 255 {
            v as u8
        } else {
            0
        },
        None => 0,
    }
}

fn calculate_java_score_of(installation: &JavaInstallation) -> (r: u32)
    ensures
        r == spec_java_score(*installation),
{
    let mut score: u32 = 0;
    let pre = crate::strutil::prefix_before_char(installation.version.as_str(), '.');
    match crate::strutil::parse_u32(pre.as_str()) {
        Some(major) => {
            score = if major == 21 {
                100
            } else if major == 17 {
                90
            } else if major == 11 {
                70
            } else if major == 8 {
                50
            } else if major > 21 {
                80
            } else {
                20
            };
        },
        None => {
        },
    }
    if installation.is_64bit {
        score = score + 25;
    }
    let vendor = installation.vendor.as_str();
    let vendor_score: u32 = if crate::strutil::contains_ci(vendor, "adoptium")
        || crate::strutil::contains_ci(vendor, "eclipse") {
        30
    } else if crate::strutil::contains_ci(vendor, "openjdk") {
        25
    } else if crate::strutil::contains_ci(vendor, "oracle") {
        20
    } else if crate::strutil::contains_ci(vendor, "amazon") {
        25
    } else if crate::strutil::contains_ci(vendor, "azul") {
        20
    } else if crate::strutil::contains_ci(vendor, "ibm") {
        15
    } else {
        10
    };
    score + vendor_score
}

fn clone_str(s: &String) -> (r: String)
    ensures
        r@ == s@,
{
    s.clone()
}

/// A trimmed property value taken from one line of the probe output is
/// a contiguous piece of the whole output.
proof fn lemma_trimmed_in_whole(
    trimmed: Seq<char>,
    value: Seq<char>,
    parts: Seq<Seq<char>>,
    k: int,
    whole: Seq<char>,
)
    requires
        crate::strutil::spec_join(parts, '\n') == whole,
        0 <= k < parts.len(),
        value == crate::strutil::after_first(parts[k], '='),
        value.len() > 0,
        exists|a: int, b: int|
            {
                &&& 0 <= a <= b <= value.len()
                &&& trimmed == value.subrange(a, b)
            },
    ensures
        exists|i: int, jj: int|
            {
                &&& 0 <= i <= jj <= whole.len()
                &&& trimmed == whole.subrange(i, jj)
            },
{
    let line = parts[k];
    crate::strutil::lemma_after_first_is_suffix(line, '=');
    let e = choose|e: int|
        {
            &&& 1 <= e <= line.len()
            &&& value == line.subrange(e, line.len() as int)
        };
    crate::strutil::lemma_join_part_subrange(parts, '\n', k);
    let off = choose|off: int|
        {
            &&& 0 <= off
            &&& off + line.len() <= whole.len()
            &&& line == #[trigger] whole.subrange(off, off + line.len())
        };
    let (a, b) = choose|a: int, b: int|
        {
            &&& 0 <= a <= b <= value.len()
            &&& trimmed == value.subrange(a, b)
        };
    assert forall|m: int| 0 <= m < trimmed.len() implies trimmed[m] == whole[off + e + a + m] by {
        assert(trimmed[m] == value[a + m]);
        assert(value[a + m] == line[e + a + m]);
        assert(line[e + a + m] == whole[off + e + a + m]);
    }
    assert(trimmed =~= whole.subrange(off + e + a, off + e + a + trimmed.len()));
    assert(0 <= off + e + a <= off + e + a + trimmed.len() <= whole.len() && trimmed
        == whole.subrange(off + e + a, off + e + a + trimmed.len()));
}
} // verus!
