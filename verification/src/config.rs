//! Run configuration: targets, address-family modes, and the validation
//! that must pass before a run starts.

use vstd::prelude::*;

use crate::record::DNSRecord;
use crate::text::{has_whitespace, spec_has_whitespace, str_eq};

verus! {

/// Command-line switches that can override the configuration file.
pub struct Args {
    /// Path of the configuration file, as given on the command line.
    pub config: String,
    /// Skip creating or modifying any DNS records at the provider.
    pub dry_run: bool,
    /// Force the IPv4 mode to enabled.
    pub ipv4: bool,
    /// Force the IPv4 mode to try.
    pub try_ipv4: bool,
    /// Force the IPv4 mode to disabled.
    pub no_ipv4: bool,
    /// Force the IPv6 mode to enabled.
    pub ipv6: bool,
    /// Force the IPv6 mode to try.
    pub try_ipv6: bool,
    /// Force the IPv6 mode to disabled.
    pub no_ipv6: bool,
}

/// Whether an address family takes part in a run, and how hard to insist.
#[derive(Clone, Copy, PartialEq, Eq, Structural, Debug)]
pub enum AddrMode {
    /// The family is updated; failure to resolve an address is fatal.
    Enabled,
    /// The family is skipped entirely.
    Disabled,
    /// The family is updated when an address can be found, and silently
    /// resolves to absent when it cannot.
    Try,
}

impl AddrMode {
    /// Whether this mode asks for the family to be updated at all.
    pub fn is_enabled(&self) -> (b: bool)
        ensures
            b == (*self is Enabled || *self is Try),
    {
        match self {
            AddrMode::Enabled | AddrMode::Try => true,
            AddrMode::Disabled => false,
        }
    }

    /// Whether a missing address for this family is a fatal error rather
    /// than something the run may shrug off.
    pub fn is_required(&self) -> (b: bool)
        ensures
            b == (*self is Enabled),
    {
        match self {
            AddrMode::Enabled => true,
            _ => false,
        }
    }
}

/// One mode after the command-line override switches have been applied:
/// an explicit switch wins over `base`, in the order enabled, disabled, try.
pub open spec fn spec_mode_override(
    base: AddrMode,
    force_on: bool,
    force_off: bool,
    force_try: bool,
) -> AddrMode {
    if force_on {
        AddrMode::Enabled
    } else if force_off {
        AddrMode::Disabled
    } else if force_try {
        AddrMode::Try
    } else {
        base
    }
}

/// A single domain or subdomain to keep up to date.
#[derive(Debug)]
pub struct Target {
    domain: String,
    subdomain: Option<String>,
    ttl: u32,
}

impl Target {
    /// The registrable root domain of this target.
    pub closed spec fn spec_domain(&self) -> Seq<char> {
        self.domain@
    }

    /// The subdomain exactly as configured, `"@"` included.
    pub closed spec fn spec_subdomain(&self) -> Option<Seq<char>> {
        match self.subdomain {
            Some(ref s) => Some(s@),
            None => None,
        }
    }

    /// The desired time-to-live of this target's records.
    pub closed spec fn spec_ttl(&self) -> u32 {
        self.ttl
    }

    /// The record name this target answers for at the provider: the bare
    /// domain when no subdomain (or the root marker `"@"`) is configured,
    /// otherwise `subdomain.domain`.
    pub open spec fn spec_record_name(&self) -> Seq<char> {
        match self.spec_subdomain() {
            None => self.spec_domain(),
            Some(s) => if s == seq!['@'] {
                self.spec_domain()
            } else {
                s + seq!['.'] + self.spec_domain()
            },
        }
    }

    /// Whether a record named `name` belongs to this target.
    pub open spec fn spec_matches(&self, name: Seq<char>) -> bool {
        name == self.spec_record_name()
    }

    /// The name this target was configured under, for display: keeps a
    /// `"@"` subdomain visible (`@.example.com`) where
    /// [`spec_record_name`](Self::spec_record_name) collapses it.
    pub open spec fn spec_display_name(&self) -> Seq<char> {
        match self.spec_subdomain() {
            None => self.spec_domain(),
            Some(s) => s + seq!['.'] + self.spec_domain(),
        }
    }

    /// Both segments are free of whitespace, as a loaded configuration
    /// guarantees.
    pub open spec fn wf(&self) -> bool {
        &&& !spec_has_whitespace(self.spec_domain())
        &&& match self.spec_subdomain() {
            Some(s) => !spec_has_whitespace(s),
            None => true,
        }
    }

    /// Builds a target from its parts, exactly as given.
    pub fn new(domain: String, subdomain: Option<String>, ttl: u32) -> (t: Target)
        ensures
            t.spec_domain() == domain@,
            t.spec_subdomain() == match subdomain {
                Some(s) => Some(s@),
                None => None::<Seq<char>>,
            },
            t.spec_ttl() == ttl,
    {
        Target { domain, subdomain, ttl }
    }

    /// A default target out of just a domain name: no subdomain, and a
    /// time-to-live of 600 seconds.
    pub fn from_domain(domain: String) -> (t: Target)
        ensures
            t.spec_domain() == domain@,
            t.spec_subdomain() is None,
            t.spec_ttl() == 600,
    {
        Target { domain, subdomain: None, ttl: 600 }
    }

    pub fn domain(&self) -> (s: &str)
        ensures
            s@ == self.spec_domain(),
    {
        self.domain.as_str()
    }

    pub fn subdomain(&self) -> (s: Option<&str>)
        ensures
            match s {
                Some(sub) => self.spec_subdomain() == Some(sub@),
                None => self.spec_subdomain() is None,
            },
    {
        match self.subdomain {
            Some(ref s) => Some(s.as_str()),
            None => None,
        }
    }

    pub fn ttl(&self) -> (t: u32)
        ensures
            t == self.spec_ttl(),
    {
        self.ttl
    }

    /// Whether both segments are free of whitespace.
    pub fn is_well_formed(&self) -> (b: bool)
        ensures
            b == self.wf(),
    {
        if has_whitespace(self.domain.as_str()) {
            return false;
        }
        match self.subdomain {
            Some(ref s) => !has_whitespace(s.as_str()),
            None => true,
        }
    }

    /// The display name as text: `subdomain.domain`, or the bare domain.
    pub fn display_name(&self) -> (s: String)
        ensures
            s@ == self.spec_display_name(),
    {
        let mut s = String::new();
        if let Some(sub) = &self.subdomain {
            s.append(sub.as_str());
            s.append(".");
        }
        s.append(self.domain.as_str());
        proof {
            reveal_strlit(".");
            assert(s@ =~= self.spec_display_name());
        }
        s
    }

    /// The subdomain label as the provider's create/edit payloads want
    /// it: empty for a root target — no subdomain, or the `"@"` marker —
    /// and the subdomain itself otherwise.
    pub open spec fn spec_provider_label(&self) -> Seq<char> {
        match self.spec_subdomain() {
            None => Seq::<char>::empty(),
            Some(s) => if s == seq!['@'] {
                Seq::<char>::empty()
            } else {
                s
            },
        }
    }

    /// The subdomain label for the provider's create/edit payloads.
    ///
    /// Joined back onto the domain, it gives exactly the record name this
    /// target answers for, so payloads and matching stay in step.
    pub fn provider_label(&self) -> (s: &str)
        ensures
            s@ == self.spec_provider_label(),
            self.spec_subdomain() != Some(Seq::<char>::empty())
                ==> self.spec_record_name() == (if s@.len() == 0 {
                self.spec_domain()
            } else {
                s@ + seq!['.'] + self.spec_domain()
            }),
    {
        proof {
            reveal_strlit("");
            assert(""@ =~= Seq::<char>::empty());
        }
        match &self.subdomain {
            None => "",
            Some(sub) => {
                if str_eq(sub.as_str(), "@") {
                    proof {
                        reveal_strlit("@");
                        assert("@"@ =~= seq!['@']);
                    }
                    ""
                } else {
                    proof {
                        reveal_strlit("@");
                        assert("@"@ =~= seq!['@']);
                        if sub@.len() == 0 {
                            assert(sub@ =~= Seq::<char>::empty());
                        }
                    }
                    sub.as_str()
                }
            },
        }
    }

    /// Whether the given record belongs to this target.
    ///
    /// A record matches when its name is exactly the name this target
    /// answers for: the bare domain for a root target, `subdomain.domain`
    /// otherwise. A name that merely starts or ends the same way — say
    /// `notwww.example.com` against subdomain `www` — does not match.
    pub fn matches_record(&self, record: &DNSRecord) -> (r: bool)
        ensures
            r == self.spec_matches(record@.name),
    {
        match &self.subdomain {
            None => str_eq(record.name.as_str(), self.domain.as_str()),
            Some(sub) => {
                if str_eq(sub.as_str(), "@") {
                    proof {
                        reveal_strlit("@");
                        assert(sub@ =~= seq!['@']);
                    }
                    str_eq(record.name.as_str(), self.domain.as_str())
                } else {
                    proof {
                        reveal_strlit("@");
                        assert("@"@ =~= seq!['@']);
                    }
                    self.matches_prefixed(record, sub)
                }
            },
        }
    }

    /// The subdomain case of [`matches_record`](Self::matches_record):
    /// checks `record.name == subdomain + "." + domain` character by
    /// character, without building the joined name.
    fn matches_prefixed(&self, record: &DNSRecord, sub: &String) -> (r: bool)
        requires
            self.spec_subdomain() == Some(sub@),
        ensures
            r == (record@.name == sub@ + seq!['.'] + self.spec_domain()),
    {
        let nm = record.name.as_str();
        let dm = self.domain.as_str();
        let sb = sub.as_str();
        let ls = sb.unicode_len();
        let ld = dm.unicode_len();
        let ln = nm.unicode_len();
        if !(ln > ls && ln - ls - 1 == ld) {
            proof {
                assert((sub@ + seq!['.'] + self.spec_domain()).len() == ls + 1 + ld);
            }
            return false;
        }
        let mut i: usize = 0;
        while i < ls
            invariant
                i <= ls,
                sb@ == sub@,
                dm@ == self.spec_domain(),
                nm@ == record@.name,
                ls == sb@.len(),
                ld == dm@.len(),
                ln == nm@.len(),
                ln == ls + 1 + ld,
                forall|j: int| 0 <= j < i ==> nm@[j] == sb@[j],
            decreases ls - i,
        {
            if nm.get_char(i) != sb.get_char(i) {
                proof {
                    assert((sub@ + seq!['.'] + self.spec_domain())[i as int] == sb@[i as int]);
                }
                return false;
            }
            i = i + 1;
        }
        if nm.get_char(ls) != '.' {
            proof {
                assert((sub@ + seq!['.'] + self.spec_domain())[ls as int] == '.');
            }
            return false;
        }
        let mut j: usize = 0;
        while j < ld
            invariant
                j <= ld,
                sb@ == sub@,
                dm@ == self.spec_domain(),
                nm@ == record@.name,
                ls == sb@.len(),
                ld == dm@.len(),
                ln == nm@.len(),
                ln == ls + 1 + ld,
                forall|k: int| 0 <= k < j ==> nm@[ls + 1 + k] == dm@[k],
            decreases ld - j,
        {
            if nm.get_char(ls + 1 + j) != dm.get_char(j) {
                proof {
                    assert((sub@ + seq!['.'] + self.spec_domain())[ls + 1 + j] == dm@[j as int]);
                }
                return false;
            }
            j = j + 1;
        }
        proof {
            let joined = sub@ + seq!['.'] + self.spec_domain();
            assert forall|k: int| 0 <= k < ln implies nm@[k] == joined[k] by {
                if k < ls {
                    assert(joined[k] == sb@[k]);
                } else if k == ls {
                    assert(joined[k] == '.');
                } else {
                    assert(joined[k] == dm@[k - ls - 1]);
                    assert(nm@[ls + 1 + (k - ls - 1)] == dm@[k - ls - 1]);
                }
            }
            assert(nm@ =~= joined);
        }
        true
    }
}

/// A subdomain written `"@"` points at the root of the domain: for
/// matching it behaves exactly like no subdomain at all, while the display
/// name keeps the `"@"` visible.
pub proof fn lemma_at_subdomain_matches_like_root(t_root: Target, t_at: Target, name: Seq<char>)
    requires
        t_root.spec_subdomain() is None,
        t_at.spec_subdomain() == Some(seq!['@']),
        t_at.spec_domain() == t_root.spec_domain(),
    ensures
        t_at.spec_matches(name) == t_root.spec_matches(name),
        t_at.spec_display_name() == seq!['@', '.'] + t_root.spec_domain(),
{
    assert(t_at.spec_record_name() == t_root.spec_record_name());
    assert(seq!['@'] + seq!['.'] + t_root.spec_domain() =~= seq!['@', '.'] + t_root.spec_domain());
}

/// Main program configuration: one mode per address family and the list
/// of targets to reconcile.
#[derive(Debug)]
pub struct Config {
    /// Mode for `A` records and IPv4.
    pub ipv4: AddrMode,
    /// Mode for `AAAA` records and IPv6.
    pub ipv6: AddrMode,
    /// The domains and subdomains to keep up to date.
    pub targets: Vec<Target>,
}

/// Targets `i` and `j` collide: two entries of the list were configured
/// under the same display name.
pub open spec fn spec_dup_pair(targets: Seq<Target>, i: int, j: int) -> bool {
    &&& 0 <= i < j < targets.len()
    &&& targets[i].spec_display_name() == targets[j].spec_display_name()
}

impl Config {
    /// Applies the command-line override switches to the file
    /// configuration: an explicit switch wins, the file's value stands
    /// otherwise, and the target list is left alone.
    pub fn extend_from_args(&mut self, args: &Args)
        ensures
            final(self).ipv4 == spec_mode_override(
                old(self).ipv4,
                args.ipv4,
                args.no_ipv4,
                args.try_ipv4,
            ),
            final(self).ipv6 == spec_mode_override(
                old(self).ipv6,
                args.ipv6,
                args.no_ipv6,
                args.try_ipv6,
            ),
            final(self).targets == old(self).targets,
    {
        if args.ipv4 {
            self.ipv4 = AddrMode::Enabled;
        } else if args.no_ipv4 {
            self.ipv4 = AddrMode::Disabled;
        } else if args.try_ipv4 {
            self.ipv4 = AddrMode::Try;
        }

        if args.ipv6 {
            self.ipv6 = AddrMode::Enabled;
        } else if args.no_ipv6 {
            self.ipv6 = AddrMode::Disabled;
        } else if args.try_ipv6 {
            self.ipv6 = AddrMode::Try;
        }
    }

    /// Looks for two targets configured under the same display name, a
    /// fatal configuration error.
    ///
    /// Returns the first collision in scan order: the second occurrence
    /// with the smallest index, paired with the earliest earlier entry
    /// carrying the same name. Returns `None` exactly when all display
    /// names are distinct.
    pub fn find_duplicate_target(&self) -> (r: Option<(usize, usize)>)
        ensures
            match r {
                None => forall|i: int, j: int| !spec_dup_pair(self.targets@, i, j),
                Some(p) => {
                    &&& spec_dup_pair(self.targets@, p.0 as int, p.1 as int)
                    &&& forall|i: int, j: int|
                        spec_dup_pair(self.targets@, i, j) ==> p.1 <= j
                    &&& forall|i: int|
                        0 <= i < p.0 ==> #[trigger] targets_index_display(self.targets@, i)
                            != targets_index_display(self.targets@, p.1 as int)
                },
            },
    {
        let n = self.targets.len();
        let mut j: usize = 0;
        while j < n
            invariant
                j <= n,
                n == self.targets@.len(),
                forall|i2: int, j2: int| j2 < j ==> !spec_dup_pair(self.targets@, i2, j2),
            decreases n - j,
        {
            let dj = self.targets[j].display_name();
            let mut i: usize = 0;
            while i < j
                invariant
                    i <= j < n,
                    n == self.targets@.len(),
                    dj@ == targets_index_display(self.targets@, j as int),
                    forall|i2: int, j2: int| j2 < j ==> !spec_dup_pair(self.targets@, i2, j2),
                    forall|i2: int|
                        0 <= i2 < i ==> #[trigger] targets_index_display(self.targets@, i2) != dj@,
                decreases j - i,
            {
                let di = self.targets[i].display_name();
                if str_eq(di.as_str(), dj.as_str()) {
                    return Some((i, j));
                }
                i = i + 1;
            }
            proof {
                assert forall|i2: int, j2: int| j2 < j + 1 implies !spec_dup_pair(
                    self.targets@,
                    i2,
                    j2,
                ) by {
                    if j2 == j && 0 <= i2 < j {
                        assert(targets_index_display(self.targets@, i2) != dj@);
                    }
                }
            }
            j = j + 1;
        }
        None
    }
}

/// The display name of the target at index `i`.
pub open spec fn targets_index_display(targets: Seq<Target>, i: int) -> Seq<char> {
    targets[i].spec_display_name()
}

} // verus!
