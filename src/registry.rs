use vstd::prelude::*;

use crate::pattern::{rule_matches, rule_pattern_matches};

verus! {

/// The protocol an upstream proxy speaks.
#[derive(Debug, Clone, Copy, PartialEq, Eq, Structural)]
pub enum ProxyType {
    Socks5,
    Http,
    Socks4,
}

impl ProxyType {
    /// The protocol's display name.
    pub fn name(&self) -> (r: String)
        ensures
            r@ == proxy_type_name(*self),
    {
        match self {
            ProxyType::Socks5 => String::from_str("SOCKS5"),
            ProxyType::Http => String::from_str("HTTP"),
            ProxyType::Socks4 => String::from_str("SOCKS4"),
        }
    }
}

pub open spec fn proxy_type_name(t: ProxyType) -> Seq<char> {
    match t {
        ProxyType::Socks5 => "SOCKS5"@,
        ProxyType::Http => "HTTP"@,
        ProxyType::Socks4 => "SOCKS4"@,
    }
}

impl Default for ProxyType {
    fn default() -> (r: Self)
        ensures
            r == ProxyType::Socks5,
    {
        ProxyType::Socks5
    }
}

/// An upstream proxy that connections can be routed through.
#[derive(Debug, Clone)]
pub struct ProxyConfig {
    pub id: u32,
    pub name: String,
    pub host: String,
    pub port: u16,
    pub proxy_type: ProxyType,
    pub username: Option<String>,
    pub password: Option<String>,
    pub enabled: bool,
}

fn copy_opt_string(o: &Option<String>) -> (r: Option<String>)
    ensures
        r == *o,
{
    match o {
        Some(s) => Some(s.clone()),
        None => None,
    }
}

impl ProxyConfig {
    /// A field-by-field copy.
    pub fn cloned(&self) -> (r: ProxyConfig)
        ensures
            r == *self,
    {
        ProxyConfig {
            id: self.id,
            name: self.name.clone(),
            host: self.host.clone(),
            port: self.port,
            proxy_type: self.proxy_type,
            username: copy_opt_string(&self.username),
            password: copy_opt_string(&self.password),
            enabled: self.enabled,
        }
    }
}

/// A routing rule: hostnames that match `pattern` go through the proxy
/// `proxy_id`.
#[derive(Debug, Clone)]
pub struct ProxyRule {
    pub id: u32,
    pub name: String,
    pub pattern: String,
    pub enabled: bool,
    pub proxy_id: u32,
}

impl ProxyRule {
    /// A field-by-field copy.
    pub fn cloned(&self) -> (r: ProxyRule)
        ensures
            r == *self,
    {
        ProxyRule {
            id: self.id,
            name: self.name.clone(),
            pattern: self.pattern.clone(),
            enabled: self.enabled,
            proxy_id: self.proxy_id,
        }
    }
}

/// The registry of upstream proxies and routing rules. Rules are evaluated
/// in the order they were added.
#[derive(Debug, Clone)]
pub struct ProxyManager {
    pub proxies: Vec<ProxyConfig>,
    pub rules: Vec<ProxyRule>,
    pub next_proxy_id: u32,
    pub next_rule_id: u32,
    pub global_enabled: bool,
}

/// Index of the first proxy from `i` on with the given id that is enabled.
pub open spec fn enabled_proxy_from(ps: Seq<ProxyConfig>, id: u32, i: int) -> Option<int>
    decreases ps.len() - i,
{
    if i < 0 || i >= ps.len() {
        None
    } else if ps[i].id == id && ps[i].enabled {
        Some(i)
    } else {
        enabled_proxy_from(ps, id, i + 1)
    }
}

/// Index of the first proxy from `i` on with the given id.
pub open spec fn proxy_pos_from(ps: Seq<ProxyConfig>, id: u32, i: int) -> Option<int>
    decreases ps.len() - i,
{
    if i < 0 || i >= ps.len() {
        None
    } else if ps[i].id == id {
        Some(i)
    } else {
        proxy_pos_from(ps, id, i + 1)
    }
}

/// Index of the first rule from `i` on with the given id.
pub open spec fn rule_pos_from(rs: Seq<ProxyRule>, id: u32, i: int) -> Option<int>
    decreases rs.len() - i,
{
    if i < 0 || i >= rs.len() {
        None
    } else if rs[i].id == id {
        Some(i)
    } else {
        rule_pos_from(rs, id, i + 1)
    }
}

/// Index of the first enabled rule from `i` on whose pattern matches `h`.
pub open spec fn matching_rule_from(rs: Seq<ProxyRule>, h: Seq<char>, i: int) -> Option<int>
    decreases rs.len() - i,
{
    if i < 0 || i >= rs.len() {
        None
    } else if rs[i].enabled && rule_pattern_matches(rs[i].pattern@, h) {
        Some(i)
    } else {
        matching_rule_from(rs, h, i + 1)
    }
}

/// The rules of `rs` that do not refer to proxy `id`, in their order.
pub open spec fn rules_without(rs: Seq<ProxyRule>, id: u32) -> Seq<ProxyRule>
    decreases rs.len(),
{
    if rs.len() == 0 {
        Seq::empty()
    } else {
        let prev = rules_without(rs.drop_last(), id);
        if rs.last().proxy_id != id {
            prev.push(rs.last())
        } else {
            prev
        }
    }
}

/// The routing decision for hostname `h`: nothing when routing is off or no
/// rule exists; otherwise the first enabled rule whose pattern matches
/// decides, and it yields its proxy if that proxy exists and is enabled,
/// else nothing (later rules are not consulted).
pub open spec fn resolve_spec(m: ProxyManager, h: Seq<char>) -> Option<ProxyConfig> {
    if !m.global_enabled || m.rules@.len() == 0 {
        None
    } else {
        match matching_rule_from(m.rules@, h, 0) {
            None => None,
            Some(k) => match enabled_proxy_from(m.proxies@, m.rules@[k].proxy_id, 0) {
                None => None,
                Some(j) => Some(m.proxies@[j]),
            },
        }
    }
}

impl ProxyManager {
    /// Ids are unique and below the next ids to hand out.
    pub open spec fn wf(&self) -> bool {
        &&& forall|i: int|
            0 <= i < self.proxies@.len() ==> #[trigger] self.proxies@[i].id < self.next_proxy_id
        &&& forall|i: int, j: int|
            0 <= i < self.proxies@.len() && 0 <= j < self.proxies@.len() && i != j
                ==> #[trigger] self.proxies@[i].id != #[trigger] self.proxies@[j].id
        &&& forall|i: int|
            0 <= i < self.rules@.len() ==> #[trigger] self.rules@[i].id < self.next_rule_id
        &&& forall|i: int, j: int|
            0 <= i < self.rules@.len() && 0 <= j < self.rules@.len() && i != j
                ==> #[trigger] self.rules@[i].id != #[trigger] self.rules@[j].id
    }
}

impl Default for ProxyManager {
    fn default() -> (r: Self)
        ensures
            r.proxies@.len() == 0,
            r.rules@.len() == 0,
            r.next_proxy_id == 1,
            r.next_rule_id == 1,
            !r.global_enabled,
            r.wf(),
    {
        ProxyManager {
            proxies: Vec::new(),
            rules: Vec::new(),
            next_proxy_id: 1,
            next_rule_id: 1,
            global_enabled: false,
        }
    }
}

impl ProxyManager {
    /// Registers an enabled proxy without credentials under the next proxy id,
    /// which it returns.
    pub fn add_proxy(&mut self, name: String, host: String, port: u16, proxy_type: ProxyType) -> (r: u32)
        requires
            old(self).next_proxy_id < u32::MAX,
            old(self).wf(),
        ensures
            r == old(self).next_proxy_id,
            final(self).next_proxy_id == old(self).next_proxy_id + 1,
            final(self).proxies@ == old(self).proxies@.push(
                (ProxyConfig {
                    id: r,
                    name,
                    host,
                    port,
                    proxy_type,
                    username: None,
                    password: None,
                    enabled: true,
                }),
            ),
            final(self).rules@ == old(self).rules@,
            final(self).next_rule_id == old(self).next_rule_id,
            final(self).global_enabled == old(self).global_enabled,
            final(self).wf(),
    {
        let id = self.next_proxy_id;
        self.next_proxy_id = id + 1;
        let proxy = ProxyConfig {
            id,
            name,
            host,
            port,
            proxy_type,
            username: None,
            password: None,
            enabled: true,
        };
        self.proxies.push(proxy);
        id
    }

    /// Appends an enabled rule under the next rule id, which it returns. The
    /// proxy id is not checked: a rule whose proxy does not exist routes
    /// nothing.
    pub fn add_rule(&mut self, name: String, pattern: String, proxy_id: u32) -> (r: u32)
        requires
            old(self).next_rule_id < u32::MAX,
            old(self).wf(),
        ensures
            r == old(self).next_rule_id,
            final(self).next_rule_id == old(self).next_rule_id + 1,
            final(self).rules@ == old(self).rules@.push(
                (ProxyRule { id: r, name, pattern, enabled: true, proxy_id }),
            ),
            final(self).proxies@ == old(self).proxies@,
            final(self).next_proxy_id == old(self).next_proxy_id,
            final(self).global_enabled == old(self).global_enabled,
            final(self).wf(),
    {
        let id = self.next_rule_id;
        self.next_rule_id = id + 1;
        let rule = ProxyRule { id, name, pattern, enabled: true, proxy_id };
        self.rules.push(rule);
        id
    }

    /// Removes the proxy with this id and every rule that refers to it;
    /// false, with nothing changed, when no proxy has this id.
    pub fn remove_proxy(&mut self, id: u32) -> (r: bool)
        requires
            old(self).wf(),
        ensures
            r == proxy_pos_from(old(self).proxies@, id, 0).is_some(),
            r ==> final(self).proxies@ == old(self).proxies@.remove(
                proxy_pos_from(old(self).proxies@, id, 0).unwrap(),
            ),
            r ==> final(self).rules@ == rules_without(old(self).rules@, id),
            !r ==> final(self).proxies@ == old(self).proxies@ && final(self).rules@ == old(
                self,
            ).rules@,
            final(self).next_proxy_id == old(self).next_proxy_id,
            final(self).next_rule_id == old(self).next_rule_id,
            final(self).global_enabled == old(self).global_enabled,
            final(self).wf(),
    {
        let i = match self.proxy_position(id) {
            Some(i) => i,
            None => {
                return false;
            },
        };
        self.proxies.remove(i);
        let ghost old_rules = self.rules@;
        let mut kept: Vec<ProxyRule> = Vec::new();
        let mut k: usize = 0;
        while k < self.rules.len()
            invariant
                self.rules@ == old_rules,
                k <= old_rules.len(),
                kept@ == rules_without(old_rules.subrange(0, k as int), id),
                forall|a: int|
                    0 <= a < kept@.len() ==> exists|b: int|
                        0 <= b < k && #[trigger] kept@[a] == old_rules[b],
                forall|a: int, c: int|
                    0 <= a < c < kept@.len() ==> exists|b: int, d: int|
                        0 <= b < d < k && #[trigger] kept@[a] == old_rules[b] && #[trigger] kept@[c]
                            == old_rules[d],
            decreases old_rules.len() - k,
        {
            proof {
                assert(old_rules.subrange(0, k + 1).drop_last() =~= old_rules.subrange(0, k as int));
            }
            if self.rules[k].proxy_id != id {
                let ghost before = kept@;
                kept.push(self.rules[k].cloned());
                proof {
                    assert forall|a: int, c: int|
                        0 <= a < c < kept@.len() implies exists|b: int, d: int|
                        0 <= b < d < k + 1 && #[trigger] kept@[a] == old_rules[b] && #[trigger] kept@[c]
                            == old_rules[d] by {
                        if c == kept@.len() - 1 {
                            assert(kept@[a] == before[a]);
                            let b = choose|b: int| 0 <= b < k && #[trigger] before[a] == old_rules[b];
                            assert(kept@[c] == old_rules[k as int]);
                        } else {
                            assert(kept@[a] == before[a] && kept@[c] == before[c]);
                        }
                    }
                    assert forall|a: int| 0 <= a < kept@.len() implies exists|b: int|
                        0 <= b < k + 1 && #[trigger] kept@[a] == old_rules[b] by {
                        if a == kept@.len() - 1 {
                            assert(kept@[a] == old_rules[k as int]);
                        } else {
                            assert(kept@[a] == before[a]);
                        }
                    }
                }
            }
            k += 1;
        }
        proof {
            assert(old_rules.subrange(0, old_rules.len() as int) =~= old_rules);
            let ps = self.proxies@;
            assert forall|a: int, c: int|
                0 <= a < kept@.len() && 0 <= c < kept@.len() && a != c
                    implies #[trigger] kept@[a].id != #[trigger] kept@[c].id by {
                if a < c {
                    let (b, d) = choose|b: int, d: int|
                        0 <= b < d < k && #[trigger] kept@[a] == old_rules[b] && #[trigger] kept@[c]
                            == old_rules[d];
                } else {
                    let (b, d) = choose|b: int, d: int|
                        0 <= b < d < k && #[trigger] kept@[c] == old_rules[b] && #[trigger] kept@[a]
                            == old_rules[d];
                }
            }
            assert forall|a: int| 0 <= a < kept@.len() implies #[trigger] kept@[a].id < self.next_rule_id by {
                let b = choose|b: int| 0 <= b < k && #[trigger] kept@[a] == old_rules[b];
            }
        }
        self.rules = kept;
        true
    }

    /// Removes the rule with this id; false, with nothing changed, when no
    /// rule has this id.
    pub fn remove_rule(&mut self, id: u32) -> (r: bool)
        requires
            old(self).wf(),
        ensures
            r == rule_pos_from(old(self).rules@, id, 0).is_some(),
            r ==> final(self).rules@ == old(self).rules@.remove(
                rule_pos_from(old(self).rules@, id, 0).unwrap(),
            ),
            !r ==> final(self).rules@ == old(self).rules@,
            final(self).proxies@ == old(self).proxies@,
            final(self).next_proxy_id == old(self).next_proxy_id,
            final(self).next_rule_id == old(self).next_rule_id,
            final(self).global_enabled == old(self).global_enabled,
            final(self).wf(),
    {
        let i = match self.rule_position(id) {
            Some(i) => i,
            None => {
                return false;
            },
        };
        let ghost before = self.rules@;
        self.rules.remove(i);
        proof {
            assert forall|a: int| 0 <= a < self.rules@.len() implies #[trigger] self.rules@[a] == before[if a < i { a } else { a + 1 }] by {}
            assert forall|a: int, c: int|
                0 <= a < self.rules@.len() && 0 <= c < self.rules@.len() && a != c
                    implies #[trigger] self.rules@[a].id != #[trigger] self.rules@[c].id by {
                assert(self.rules@[a] == before[if a < i { a } else { a + 1 }]);
                assert(self.rules@[c] == before[if c < i { c } else { c + 1 }]);
            }
            assert forall|a: int| 0 <= a < self.rules@.len() implies #[trigger] self.rules@[a].id < self.next_rule_id by {
                assert(self.rules@[a] == before[if a < i { a } else { a + 1 }]);
            }
        }
        true
    }

    /// The proxy that a connection to `hostname` goes through, if any: the
    /// first enabled rule whose pattern matches decides, and its proxy is
    /// returned when it exists and is enabled. Nothing is returned when
    /// routing is switched off.
    pub fn resolve(&self, hostname: &str) -> (r: Option<ProxyConfig>)
        ensures
            r == resolve_spec(*self, hostname@),
            !self.global_enabled ==> r.is_none(),
    {
        if !self.global_enabled || self.rules.len() == 0 {
            return None;
        }
        let n = self.rules.len();
        let mut i: usize = 0;
        while i < n
            invariant
                n == self.rules@.len(),
                i <= n,
                self.global_enabled,
                n > 0,
                matching_rule_from(self.rules@, hostname@, 0) == matching_rule_from(
                    self.rules@,
                    hostname@,
                    i as int,
                ),
            decreases n - i,
        {
            let rule = &self.rules[i];
            if rule.enabled && rule_matches(rule.pattern.as_str(), hostname) {
                return self.enabled_proxy(rule.proxy_id);
            }
            i += 1;
        }
        None
    }

    /// Switches routing on or off as a whole; the proxies and rules stay.
    pub fn set_global_enabled(&mut self, on: bool)
        ensures
            final(self).global_enabled == on,
            final(self).proxies@ == old(self).proxies@,
            final(self).rules@ == old(self).rules@,
            final(self).next_proxy_id == old(self).next_proxy_id,
            final(self).next_rule_id == old(self).next_rule_id,
    {
        self.global_enabled = on;
    }

    /// Where the first proxy with this id stands.
    fn proxy_position(&self, id: u32) -> (r: Option<usize>)
        ensures
            r.is_some() == proxy_pos_from(self.proxies@, id, 0).is_some(),
            r.is_some() ==> r.unwrap() == proxy_pos_from(self.proxies@, id, 0).unwrap(),
            r.is_some() ==> r.unwrap() < self.proxies@.len(),
    {
        let n = self.proxies.len();
        let mut i: usize = 0;
        while i < n
            invariant
                n == self.proxies@.len(),
                i <= n,
                proxy_pos_from(self.proxies@, id, 0) == proxy_pos_from(self.proxies@, id, i as int),
            decreases n - i,
        {
            if self.proxies[i].id == id {
                return Some(i);
            }
            i += 1;
        }
        None
    }

    /// Where the first rule with this id stands.
    fn rule_position(&self, id: u32) -> (r: Option<usize>)
        ensures
            r.is_some() == rule_pos_from(self.rules@, id, 0).is_some(),
            r.is_some() ==> r.unwrap() == rule_pos_from(self.rules@, id, 0).unwrap(),
            r.is_some() ==> r.unwrap() < self.rules@.len(),
    {
        let n = self.rules.len();
        let mut i: usize = 0;
        while i < n
            invariant
                n == self.rules@.len(),
                i <= n,
                rule_pos_from(self.rules@, id, 0) == rule_pos_from(self.rules@, id, i as int),
            decreases n - i,
        {
            if self.rules[i].id == id {
                return Some(i);
            }
            i += 1;
        }
        None
    }

    /// The first enabled proxy with this id, copied.
    fn enabled_proxy(&self, id: u32) -> (r: Option<ProxyConfig>)
        ensures
            r == (match enabled_proxy_from(self.proxies@, id, 0) {
                None => None,
                Some(j) => Some(self.proxies@[j]),
            }),
    {
        let n = self.proxies.len();
        let mut j: usize = 0;
        while j < n
            invariant
                n == self.proxies@.len(),
                j <= n,
                enabled_proxy_from(self.proxies@, id, 0) == enabled_proxy_from(
                    self.proxies@,
                    id,
                    j as int,
                ),
            decreases n - j,
        {
            let p = &self.proxies[j];
            if p.id == id && p.enabled {
                return Some(p.cloned());
            }
            j += 1;
        }
        None
    }
}

/// The rule that matching picks is enabled and matches.
pub proof fn lemma_matching_rule_from(rs: Seq<ProxyRule>, h: Seq<char>, i: int)
    ensures
        matching_rule_from(rs, h, i) matches Some(k) ==> i <= k < rs.len() && rs[k].enabled
            && rule_pattern_matches(rs[k].pattern@, h),
    decreases rs.len() - i,
{
    if 0 <= i < rs.len() {
        lemma_matching_rule_from(rs, h, i + 1);
    }
}

/// The proxy that the lookup picks has the id and is enabled; when no
/// enabled proxy has the id, none is picked.
pub proof fn lemma_enabled_proxy_from(ps: Seq<ProxyConfig>, id: u32, i: int)
    ensures
        enabled_proxy_from(ps, id, i) matches Some(j) ==> i <= j < ps.len() && ps[j].id == id
            && ps[j].enabled,
        (forall|j: int| i <= j < ps.len() && #[trigger] ps[j].id == id ==> !ps[j].enabled)
            ==> enabled_proxy_from(ps, id, i).is_none(),
    decreases ps.len() - i,
{
    if 0 <= i < ps.len() {
        lemma_enabled_proxy_from(ps, id, i + 1);
    }
}

/// The rules kept after a removal refer to other proxies and were there
/// before.
pub proof fn lemma_rules_without(rs: Seq<ProxyRule>, id: u32)
    ensures
        forall|a: int|
            0 <= a < rules_without(rs, id).len() ==> (#[trigger] rules_without(rs, id)[a]).proxy_id
                != id && exists|b: int| 0 <= b < rs.len() && rs[b] == rules_without(rs, id)[a],
    decreases rs.len(),
{
    if rs.len() > 0 {
        lemma_rules_without(rs.drop_last(), id);
        let prev = rules_without(rs.drop_last(), id);
        assert forall|a: int| 0 <= a < rules_without(rs, id).len() implies (
        #[trigger] rules_without(rs, id)[a]).proxy_id != id && exists|b: int|
            0 <= b < rs.len() && rs[b] == rules_without(rs, id)[a] by {
            if a < prev.len() {
                assert(rules_without(rs, id)[a] == prev[a]);
                let b = choose|b: int| 0 <= b < rs.drop_last().len() && rs.drop_last()[b] == prev[a];
                assert(rs[b] == prev[a]);
            } else {
                assert(rules_without(rs, id)[a] == rs[rs.len() - 1]);
            }
        }
    }
}

/// With routing switched off, no hostname is routed through any proxy.
pub proof fn lemma_disabled_routes_nothing(m: ProxyManager, h: Seq<char>)
    requires
        !m.global_enabled,
    ensures
        resolve_spec(m, h).is_none(),
{
}

/// Once a proxy has been removed (with the rules that refer to it), no
/// hostname resolves to it, and a hostname that only rules referring to it
/// matched resolves to nothing.
pub proof fn lemma_removed_proxy_unreachable(
    before: ProxyManager,
    after: ProxyManager,
    id: u32,
    h: Seq<char>,
)
    requires
        before.wf(),
        proxy_pos_from(before.proxies@, id, 0) matches Some(pos) && after.proxies@
            == before.proxies@.remove(pos),
        after.rules@ == rules_without(before.rules@, id),
        after.global_enabled == before.global_enabled,
    ensures
        resolve_spec(after, h) matches Some(p) ==> p.id != id,
        (forall|k: int|
            0 <= k < before.rules@.len() && (#[trigger] before.rules@[k]).enabled
                && rule_pattern_matches(before.rules@[k].pattern@, h) ==> before.rules@[k].proxy_id
                == id) ==> resolve_spec(after, h).is_none(),
{
    let rs = after.rules@;
    lemma_rules_without(before.rules@, id);
    lemma_matching_rule_from(rs, h, 0);
    if let Some(k) = matching_rule_from(rs, h, 0) {
        lemma_enabled_proxy_from(after.proxies@, rs[k].proxy_id, 0);
        assert(rs[k].proxy_id != id);
        let b = choose|b: int| 0 <= b < before.rules@.len() && before.rules@[b] == rs[k];
        assert(before.rules@[b].enabled);
    }
}

proof fn lemma_matching_rule_push(rs: Seq<ProxyRule>, x: ProxyRule, h: Seq<char>, i: int)
    requires
        0 <= i,
        matching_rule_from(rs, h, i).is_some(),
    ensures
        matching_rule_from(rs.push(x), h, i) == matching_rule_from(rs, h, i),
    decreases rs.len() - i,
{
    if i < rs.len() {
        assert(rs.push(x)[i] == rs[i]);
        if !(rs[i].enabled && rule_pattern_matches(rs[i].pattern@, h)) {
            lemma_matching_rule_push(rs, x, h, i + 1);
        }
    }
}

/// Rules are consulted in the order they were added: appending a rule
/// leaves the decision unchanged for every hostname that an earlier rule
/// already matches.
pub proof fn lemma_appended_rule_keeps_earlier_decisions(
    before: ProxyManager,
    after: ProxyManager,
    rule: ProxyRule,
    h: Seq<char>,
)
    requires
        after.rules@ == before.rules@.push(rule),
        after.proxies@ == before.proxies@,
        after.global_enabled == before.global_enabled,
        matching_rule_from(before.rules@, h, 0).is_some(),
    ensures
        resolve_spec(after, h) == resolve_spec(before, h),
{
    lemma_matching_rule_push(before.rules@, rule, h, 0);
    lemma_matching_rule_from(before.rules@, h, 0);
    let k = matching_rule_from(before.rules@, h, 0).unwrap();
    assert(after.rules@[k] == before.rules@[k]);
}

/// Resolution does not fall through: when the first enabled rule that
/// matches names a proxy that is missing or disabled, nothing is returned,
/// whatever later rules say.
pub proof fn lemma_no_fallthrough(m: ProxyManager, h: Seq<char>, k: int)
    requires
        matching_rule_from(m.rules@, h, 0) == Some(k),
        forall|j: int|
            0 <= j < m.proxies@.len() && #[trigger] m.proxies@[j].id == m.rules@[k].proxy_id
                ==> !m.proxies@[j].enabled,
    ensures
        resolve_spec(m, h).is_none(),
{
    lemma_enabled_proxy_from(m.proxies@, m.rules@[k].proxy_id, 0);
}

} // verus!
