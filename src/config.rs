//! Platform configurations: operator spellings and field prefixes.
use vstd::prelude::*;
use vstd::string::StringExecFns;
use crate::error::{ConversionError, ErrorView};
use crate::text::{chars_of, seq_eq};

verus! {

/// The six operator spellings of a platform.
#[derive(Debug, Clone)]
pub struct Operators {
    pub equal: String,
    pub and: String,
    pub or: String,
    pub not_equal: String,
    pub left_paren: String,
    pub right_paren: String,
}

pub struct OperatorsView {
    pub equal: Seq<char>,
    pub and: Seq<char>,
    pub or: Seq<char>,
    pub not_equal: Seq<char>,
    pub left_paren: Seq<char>,
    pub right_paren: Seq<char>,
}

impl View for Operators {
    type V = OperatorsView;

    open spec fn view(&self) -> OperatorsView {
        OperatorsView {
            equal: self.equal@,
            and: self.and@,
            or: self.or@,
            not_equal: self.not_equal@,
            left_paren: self.left_paren@,
            right_paren: self.right_paren@,
        }
    }
}

/// A field pair as character sequences: canonical name, platform prefix.
pub open spec fn pair_view(p: (String, String)) -> (Seq<char>, Seq<char>) {
    (p.0@, p.1@)
}

/// Operators and field prefixes of one platform. `fields` maps each canonical
/// field name to the prefix that the platform writes for it.
#[derive(Debug, Clone)]
pub struct PlatformConfig {
    pub operators: Operators,
    pub fields: Vec<(String, String)>,
}

pub struct PlatformView {
    pub operators: OperatorsView,
    pub fields: Seq<(Seq<char>, Seq<char>)>,
}

impl View for PlatformConfig {
    type V = PlatformView;

    open spec fn view(&self) -> PlatformView {
        PlatformView { operators: self.operators@, fields: self.fields@.map_values(|p| pair_view(p)) }
    }
}

/// Every operator spelling is non-empty.
pub open spec fn operators_wf(o: OperatorsView) -> bool {
    &&& o.equal.len() > 0
    &&& o.and.len() > 0
    &&& o.or.len() > 0
    &&& o.not_equal.len() > 0
    &&& o.left_paren.len() > 0
    &&& o.right_paren.len() > 0
}

/// The prefix given to the first entry named `k` from index `i` on.
pub open spec fn lookup_from(fields: Seq<(Seq<char>, Seq<char>)>, k: Seq<char>, i: int) -> Option<
    Seq<char>,
>
    decreases fields.len() - i,
{
    if i < 0 || i >= fields.len() {
        None
    } else if fields[i].0 == k {
        Some(fields[i].1)
    } else {
        lookup_from(fields, k, i + 1)
    }
}

/// The prefix of field `k`, if the map has it.
pub open spec fn lookup(fields: Seq<(Seq<char>, Seq<char>)>, k: Seq<char>) -> Option<Seq<char>> {
    lookup_from(fields, k, 0)
}

/// No two entries of the field map share a canonical name.
pub open spec fn unique_keys(f: Seq<(Seq<char>, Seq<char>)>) -> bool {
    forall|i: int, j: int| 0 <= i < j < f.len() ==> #[trigger] f[i].0 != #[trigger] f[j].0
}

impl PlatformConfig {
    /// Operator spellings are non-empty and canonical field names unique.
    pub open spec fn wf(&self) -> bool {
        operators_wf(self.operators@) && unique_keys(self@.fields)
    }

    /// Whether no two field entries share a canonical name.
    pub fn has_unique_keys(&self) -> (r: bool)
        ensures
            r == unique_keys(self@.fields),
    {
        let ghost f = self@.fields;
        let n = self.fields.len();
        let mut i: usize = 0;
        while i < n
            invariant
                n == self.fields@.len(),
                f == self@.fields,
                i <= n,
                forall|a: int, b: int| 0 <= a < b < i ==> #[trigger] f[a].0 != #[trigger] f[b].0,
            decreases n - i,
        {
            let mut j: usize = 0;
            while j < i
                invariant
                    n == self.fields@.len(),
                    f == self@.fields,
                    j <= i < n,
                    forall|a: int| 0 <= a < j ==> #[trigger] f[a].0 != f[i as int].0,
                decreases i - j,
            {
                assert(f[j as int].0 == self.fields@[j as int].0@);
                assert(f[i as int].0 == self.fields@[i as int].0@);
                if self.fields[j].0 == self.fields[i].0 {
                    assert(!unique_keys(f) || j >= i);
                    return false;
                }
                j = j + 1;
            }
            i = i + 1;
        }
        true
    }

    /// The prefix of the canonical field `name`, if this platform has it.
    pub fn field_prefix(&self, name: &[char]) -> (r: Option<&String>)
        ensures
            match r {
                Some(p) => lookup(self@.fields, name@) == Some(p@),
                None => lookup(self@.fields, name@) is None,
            },
    {
        let mut i: usize = 0;
        while i < self.fields.len()
            invariant
                i <= self.fields@.len(),
                lookup_from(self@.fields, name@, i as int) == lookup(self@.fields, name@),
            decreases self.fields@.len() - i,
        {
            let key = chars_of(self.fields[i].0.as_str());
            if seq_eq(&key, name) {
                return Some(&self.fields[i].1);
            }
            i = i + 1;
        }
        None
    }
}

/// The character sequences of the strings.
pub open spec fn views_of(v: Seq<String>) -> Seq<Seq<char>> {
    v.map_values(|s: String| s@)
}

/// Platform names of the entries.
pub open spec fn names_of(entries: Seq<(String, PlatformConfig)>) -> Seq<Seq<char>> {
    entries.map_values(|e: (String, PlatformConfig)| e.0@)
}

/// No two entries share a name, and each configuration is well formed.
pub open spec fn entries_wf(entries: Seq<(String, PlatformConfig)>) -> bool {
    &&& forall|i: int, j: int|
        0 <= i < j < entries.len() ==> #[trigger] entries[i].0@ != #[trigger] entries[j].0@
    &&& forall|i: int| 0 <= i < entries.len() ==> (#[trigger] entries[i]).1.wf()
}

/// The configurations of all platforms, by name.
pub struct ConfigManager {
    configs: Vec<(String, PlatformConfig)>,
}

impl ConfigManager {
    #[verifier::type_invariant]
    spec fn inv(&self) -> bool {
        entries_wf(self.configs@)
    }

    /// The entries, in the order in which they were given.
    pub closed spec fn entries(&self) -> Seq<(String, PlatformConfig)> {
        self.configs@
    }

    /// The configuration of platform `name`, if there is one.
    pub open spec fn config_of(&self, name: Seq<char>) -> Option<PlatformView> {
        if exists|i: int| 0 <= i < self.entries().len() && #[trigger] self.entries()[i].0@ == name {
            let i = choose|i: int|
                0 <= i < self.entries().len() && #[trigger] self.entries()[i].0@ == name;
            Some(self.entries()[i].1@)
        } else {
            None
        }
    }

    /// A manager over the given platforms. Fails with a configuration error when
    /// two share a name or an operator spelling is empty.
    pub fn from_entries(configs: Vec<(String, PlatformConfig)>) -> (r: Result<
        ConfigManager,
        ConversionError,
    >)
        ensures
            match r {
                Ok(m) => m.entries() == configs@,
                Err(e) => !entries_wf(configs@) && e@ is ConfigurationError,
            },
            r is Ok <==> entries_wf(configs@),
    {
        let mut i: usize = 0;
        while i < configs.len()
            invariant
                i <= configs@.len(),
                forall|a: int, b: int|
                    0 <= a < b < i ==> #[trigger] configs@[a].0@ != #[trigger] configs@[b].0@,
                forall|a: int| 0 <= a < i ==> (#[trigger] configs@[a]).1.wf(),
            decreases configs@.len() - i,
        {
            let ops = &configs[i].1.operators;
            if is_empty(&ops.equal) || is_empty(&ops.and) || is_empty(&ops.or) || is_empty(
                &ops.not_equal,
            ) || is_empty(&ops.left_paren) || is_empty(&ops.right_paren) {
                let mut m = String::from_str("empty operator spelling for platform ");
                m.append(configs[i].0.as_str());
                return Err(ConversionError::ConfigurationError(m));
            }
            if !configs[i].1.has_unique_keys() {
                let mut m = String::from_str("duplicate field name for platform ");
                m.append(configs[i].0.as_str());
                return Err(ConversionError::ConfigurationError(m));
            }
            let mut j: usize = 0;
            while j < i
                invariant
                    j <= i < configs@.len(),
                    forall|a: int| 0 <= a < j ==> #[trigger] configs@[a].0@ != configs@[i as int].0@,
                decreases i - j,
            {
                if configs[j].0 == configs[i].0 {
                    let mut m = String::from_str("duplicate platform ");
                    m.append(configs[i].0.as_str());
                    return Err(ConversionError::ConfigurationError(m));
                }
                j = j + 1;
            }
            i = i + 1;
        }
        Ok(ConfigManager { configs })
    }

    /// The configuration of `platform`, or an unsupported-platform error.
    pub fn get_platform_config(&self, platform: &str) -> (r: Result<&PlatformConfig, ConversionError>)
        ensures
            match r {
                Ok(c) => self.config_of(platform@) == Some(c@) && c.wf(),
                Err(e) => self.config_of(platform@) is None && e@ == ErrorView::UnsupportedPlatform(
                    platform@,
                ),
            },
    {
        proof {
            use_type_invariant(self);
        }
        let name = chars_of(platform);
        let mut i: usize = 0;
        while i < self.configs.len()
            invariant
                i <= self.configs@.len(),
                name@ == platform@,
                entries_wf(self.configs@),
                forall|a: int| 0 <= a < i ==> #[trigger] self.configs@[a].0@ != platform@,
            decreases self.configs@.len() - i,
        {
            let key = chars_of(self.configs[i].0.as_str());
            if seq_eq(&key, &name) {
                proof {
                    let k = choose|k: int|
                        0 <= k < self.entries().len() && #[trigger] self.entries()[k].0@ == platform@;
                    if k > i {
                        assert(self.configs@[i as int].0@ != self.configs@[k].0@);
                    }
                }
                return Ok(&self.configs[i].1);
            }
            i = i + 1;
        }
        Err(ConversionError::UnsupportedPlatform(String::from_str(platform)))
    }

    /// The names of all platforms, in order.
    pub fn get_supported_platforms(&self) -> (r: Vec<String>)
        ensures
            views_of(r@) == names_of(self.entries()),
            forall|a: int, b: int| 0 <= a < b < r@.len() ==> #[trigger] r@[a]@ != #[trigger] r@[b]@,
    {
        proof {
            use_type_invariant(self);
        }
        let mut r: Vec<String> = Vec::new();
        let mut i: usize = 0;
        while i < self.configs.len()
            invariant
                i <= self.configs@.len(),
                r@.len() == i,
                forall|k: int| 0 <= k < i ==> (#[trigger] r@[k])@ == self.configs@[k].0@,
            decreases self.configs@.len() - i,
        {
            let c = self.configs[i].0.clone();
            r.push(c);
            i = i + 1;
        }
        assert(views_of(r@) =~= names_of(self.configs@));
        r
    }

    /// Whether `platform` is configured.
    pub fn is_platform_supported(&self, platform: &str) -> (r: bool)
        ensures
            r == (self.config_of(platform@) is Some),
    {
        self.get_platform_config(platform).is_ok()
    }
}

fn is_empty(s: &String) -> (r: bool)
    ensures
        r == (s@.len() == 0),
{
    chars_of(s.as_str()).len() == 0
}

} // verus!
