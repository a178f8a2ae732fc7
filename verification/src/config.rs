//! The configuration: defaults, the table of remembered sites, and the
//! summary that `keyforge config` prints.
use vstd::prelude::*;

use crate::order::{
    lemma_text_lt_irreflexive, lemma_text_lt_total, lemma_text_lt_transitive, str_lt, text_lt,
};
use crate::text::{decimal, decimal_string};

verus! {

/// Settings remembered for one site; `None` falls back to the defaults.
pub struct SiteConfig {
    pub user_name: Option<String>,
    pub length: Option<u32>,
    pub symbols: Option<bool>,
}

/// The contents of a `SiteConfig`.
pub struct SiteConfigView {
    pub user_name: Option<Seq<char>>,
    pub length: Option<u32>,
    pub symbols: Option<bool>,
}

impl View for SiteConfig {
    type V = SiteConfigView;

    open spec fn view(&self) -> SiteConfigView {
        SiteConfigView {
            user_name: match self.user_name {
                Some(s) => Some(s@),
                None => None,
            },
            length: self.length,
            symbols: self.symbols,
        }
    }
}

/// Site entries, viewed as (site, settings) pairs.
pub type SiteEntries = Seq<(Seq<char>, SiteConfigView)>;

/// The sites sort strictly ascending: in order, and each at most once.
pub open spec fn sorted_sites(entries: SiteEntries) -> bool {
    forall|i: int, j: int|
        0 <= i < j < entries.len() ==> text_lt(#[trigger] entries[i].0, #[trigger] entries[j].0)
}

/// `site` has an entry.
pub open spec fn has_site(entries: SiteEntries, site: Seq<char>) -> bool {
    exists|i: int| 0 <= i < entries.len() && #[trigger] entries[i].0 == site
}

/// A position of `site` (meaningful when it has an entry).
pub open spec fn site_index(entries: SiteEntries, site: Seq<char>) -> int {
    choose|i: int| 0 <= i < entries.len() && #[trigger] entries[i].0 == site
}

/// The settings remembered for `site`.
pub open spec fn lookup(entries: SiteEntries, site: Seq<char>) -> Option<SiteConfigView> {
    if has_site(entries, site) {
        Some(entries[site_index(entries, site)].1)
    } else {
        None
    }
}

/// In a sorted table, an entry's settings are what `lookup` finds for its site.
pub proof fn lemma_lookup_entry(entries: SiteEntries, i: int)
    requires
        sorted_sites(entries),
        0 <= i < entries.len(),
    ensures
        lookup(entries, entries[i].0) == Some(entries[i].1),
{
    let site = entries[i].0;
    assert(entries[i].0 == site);
    assert(has_site(entries, site));
    let j = site_index(entries, site);
    assert(0 <= j < entries.len() && entries[j].0 == site);
    if j < i {
        lemma_text_lt_irreflexive(site);
        assert(text_lt(entries[j].0, entries[i].0));
    } else if i < j {
        lemma_text_lt_irreflexive(site);
        assert(text_lt(entries[i].0, entries[j].0));
    }
}

/// The remembered sites, sorted by site.
pub struct SiteTable {
    entries: Vec<(String, SiteConfig)>,
}

impl View for SiteTable {
    type V = SiteEntries;

    closed spec fn view(&self) -> SiteEntries {
        self.entries@.map_values(|e: (String, SiteConfig)| (e.0@, e.1@))
    }
}

impl SiteTable {
    #[verifier::type_invariant]
    closed spec fn sorted(self) -> bool {
        sorted_sites(self@)
    }

    /// An empty table.
    pub fn new() -> (t: Self)
        ensures
            t@ == Seq::<(Seq<char>, SiteConfigView)>::empty(),
    {
        let t = SiteTable { entries: Vec::new() };
        assert(t@ =~= Seq::<(Seq<char>, SiteConfigView)>::empty());
        t
    }

    /// The number of remembered sites.
    pub fn len(&self) -> (n: usize)
        ensures
            n == self@.len(),
            sorted_sites(self@),
    {
        proof {
            use_type_invariant(self);
        }
        self.entries.len()
    }

    /// Whether no site is remembered.
    pub fn is_empty(&self) -> (b: bool)
        ensures
            b == (self@.len() == 0),
            sorted_sites(self@),
    {
        proof {
            use_type_invariant(self);
        }
        self.entries.len() == 0
    }

    /// The entry at position `i`, in site order.
    pub fn entry(&self, i: usize) -> (e: (&String, &SiteConfig))
        requires
            i < self@.len(),
        ensures
            e.0@ == self@[i as int].0,
            e.1@ == self@[i as int].1,
            sorted_sites(self@),
    {
        proof {
            use_type_invariant(self);
        }
        let entry = &self.entries[i];
        (&entry.0, &entry.1)
    }

    /// The first position whose site does not sort before `site`.
    fn position(&self, site: &str) -> (p: usize)
        ensures
            p <= self@.len(),
            forall|i: int| 0 <= i < p ==> text_lt(#[trigger] self@[i].0, site@),
            p < self@.len() ==> !text_lt(self@[p as int].0, site@),
    {
        let mut p: usize = 0;
        while p < self.entries.len() && str_lt(self.entries[p].0.as_str(), site)
            invariant
                p <= self@.len(),
                self@.len() == self.entries@.len(),
                forall|i: int| 0 <= i < p ==> text_lt(#[trigger] self@[i].0, site@),
            decreases self@.len() - p,
        {
            p = p + 1;
        }
        p
    }

    /// The settings remembered for `site`, if any.
    pub fn get(&self, site: &str) -> (r: Option<&SiteConfig>)
        ensures
            match r {
                Some(c) => lookup(self@, site@) == Some(c@),
                None => lookup(self@, site@) is None,
            },
            sorted_sites(self@),
    {
        proof {
            use_type_invariant(self);
        }
        let p = self.position(site);
        if p < self.entries.len() && !str_lt(site, self.entries[p].0.as_str()) {
            proof {
                if self@[p as int].0 != site@ {
                    lemma_text_lt_total(self@[p as int].0, site@);
                }
                lemma_lookup_entry(self@, p as int);
            }
            Some(&self.entries[p].1)
        } else {
            proof {
                if has_site(self@, site@) {
                    let j = choose|j: int| 0 <= j < self@.len() && #[trigger] self@[j].0 == site@;
                    lemma_text_lt_irreflexive(site@);
                    if j >= p {
                        if j > p {
                            assert(text_lt(self@[p as int].0, self@[j].0));
                        }
                    }
                }
            }
            None
        }
    }

    /// Remembers `config` for `site`, replacing what was remembered for it.
    pub fn insert(&mut self, site: String, config: SiteConfig)
        ensures
            sorted_sites(final(self)@),
            lookup(final(self)@, site@) == Some(config@),
            forall|other: Seq<char>|
                other != site@ ==> lookup(final(self)@, other) == lookup(old(self)@, other),
            final(self)@.len() == old(self)@.len() + (if has_site(old(self)@, site@) {
                0int
            } else {
                1int
            }),
    {
        proof {
            use_type_invariant(&*self);
        }
        let ghost before = self@;
        let p = self.position(site.as_str());
        let ghost key = site@;
        let ghost value = config@;
        let mut entries: Vec<(String, SiteConfig)> = Vec::new();
        std::mem::swap(&mut entries, &mut self.entries);
        assert(entries@.map_values(|e: (String, SiteConfig)| (e.0@, e.1@)) == before);
        if p < entries.len() && !str_lt(site.as_str(), entries[p].0.as_str()) {
            proof {
                if before[p as int].0 != key {
                    lemma_text_lt_total(before[p as int].0, key);
                }
            }
            entries.set(p, (site, config));
            proof {
                let after = entries@.map_values(|e: (String, SiteConfig)| (e.0@, e.1@));
                assert(after =~= before.update(p as int, (key, value)));
                assert(after[p as int].0 == before[p as int].0);
                assert forall|i: int, j: int| 0 <= i < j < after.len() implies text_lt(
                    #[trigger] after[i].0,
                    #[trigger] after[j].0,
                ) by {
                    assert(after[i].0 == before[i].0);
                    assert(after[j].0 == before[j].0);
                }
            }
            self.entries = entries;
            proof {
                assert(self@ =~= before.update(p as int, (key, value)));
                lemma_lookup_entry(self@, p as int);
                assert forall|other: Seq<char>| other != key implies lookup(self@, other) == lookup(
                    before,
                    other,
                ) by {
                    if has_site(before, other) {
                        let j = choose|j: int| 0 <= j < before.len() && #[trigger] before[j].0 == other;
                        assert(self@[j].0 == other);
                        lemma_lookup_entry(self@, j);
                        lemma_lookup_entry(before, j);
                    } else {
                        assert(!has_site(self@, other));
                    }
                }
                assert(has_site(before, key));
            }
        } else {
            proof {
                if p < before.len() {
                    lemma_text_lt_total(before[p as int].0, key);
                }
                assert forall|j: int| p <= j < before.len() implies text_lt(key, #[trigger] before[j].0) by {
                    if j > p {
                        lemma_text_lt_transitive(key, before[p as int].0, before[j].0);
                    }
                }
            }
            entries.insert(p, (site, config));
            proof {
                let after = entries@.map_values(|e: (String, SiteConfig)| (e.0@, e.1@));
                assert(after =~= before.insert(p as int, (key, value)));
                assert forall|i: int, j: int| 0 <= i < j < after.len() implies text_lt(
                    #[trigger] after[i].0,
                    #[trigger] after[j].0,
                ) by {
                    if i < p && j < p {
                    } else if i < p && j == p {
                    } else if i < p {
                        assert(after[j].0 == before[j - 1].0);
                    } else if i == p {
                        assert(after[j].0 == before[j - 1].0);
                    } else {
                        assert(after[i].0 == before[i - 1].0);
                        assert(after[j].0 == before[j - 1].0);
                    }
                }
            }
            self.entries = entries;
            proof {
                assert(self@ =~= before.insert(p as int, (key, value)));
                lemma_lookup_entry(self@, p as int);
                assert forall|other: Seq<char>| other != key implies lookup(self@, other) == lookup(
                    before,
                    other,
                ) by {
                    if has_site(before, other) {
                        let j = choose|j: int| 0 <= j < before.len() && #[trigger] before[j].0 == other;
                        if j < p {
                            assert(self@[j].0 == other);
                            lemma_lookup_entry(self@, j);
                        } else {
                            assert(self@[j + 1].0 == other);
                            lemma_lookup_entry(self@, j + 1);
                        }
                        lemma_lookup_entry(before, j);
                    } else {
                        if has_site(self@, other) {
                            let j = choose|j: int| 0 <= j < self@.len() && #[trigger] self@[j].0 == other;
                            if j < p {
                                assert(before[j].0 == other);
                            } else if j > p {
                                assert(before[j - 1].0 == other);
                            }
                        }
                    }
                }
                if has_site(before, key) {
                    let j = choose|j: int| 0 <= j < before.len() && #[trigger] before[j].0 == key;
                    lemma_text_lt_irreflexive(key);
                    if j >= p {
                        assert(text_lt(key, before[j].0));
                    }
                }
            }
        }
    }
}


/// The length used when neither the site nor the command line sets one.
pub fn default_length() -> (n: u32)
    ensures
        n == 16,
{
    16
}

/// The clipboard timeout, in seconds, used when the command line sets none.
pub fn default_timeout() -> (n: u32)
    ensures
        n == 45,
{
    45
}

/// Whether a config file with permission bits `mode` must be reset to
/// `0o600`: its `0o777` bits are anything else.
pub fn permissions_need_fix(mode: u32) -> (fix: bool)
    ensures
        fix == (mode % 512 != 384),
{
    let bits = mode & 0o777u32;
    assert(bits == mode % 512) by (bit_vector)
        requires
            bits == mode & 0o777u32,
    ;
    bits != 0o600u32
}

/// Defaults and remembered sites.
pub struct Config {
    pub default_user_name: String,
    pub default_length: u32,
    pub default_symbols: bool,
    pub default_timeout: u32,
    pub default_print: bool,
    pub default_remember: bool,
    pub sites: SiteTable,
}

impl Default for Config {
    fn default() -> (c: Self)
        ensures
            c.default_user_name@ == Seq::<char>::empty(),
            c.default_length == 16,
            !c.default_symbols,
            c.default_timeout == 45,
            !c.default_print,
            !c.default_remember,
            c.sites@.len() == 0,
    {
        Config {
            default_user_name: String::new(),
            default_length: default_length(),
            default_symbols: false,
            default_timeout: default_timeout(),
            default_print: false,
            default_remember: false,
            sites: SiteTable::new(),
        }
    }
}

/// `label` padded with spaces to eight characters (`{label:<8}`).
pub open spec fn padded(label: Seq<char>) -> Seq<char> {
    if label.len() >= 8 {
        label
    } else {
        label + Seq::new((8 - label.len()) as nat, |i: int| ' ')
    }
}

/// One `label: value` row of the summary.
pub open spec fn row_text(label: Seq<char>, value: Seq<char>) -> Seq<char> {
    padded(label) + ": "@ + value
}

/// A text, or `(none)` when it is empty.
pub open spec fn str_or_none(s: Seq<char>) -> Seq<char> {
    if s.len() == 0 {
        "(none)"@
    } else {
        s
    }
}

/// An optional text, `(none)` when absent or empty.
pub open spec fn opt_str_or_none(o: Option<Seq<char>>) -> Seq<char> {
    match o {
        Some(s) => str_or_none(s),
        None => "(none)"@,
    }
}

/// `true` or `false`.
pub open spec fn bool_text(b: bool) -> Seq<char> {
    if b {
        "true"@
    } else {
        "false"@
    }
}

/// An optional number, `(default)` when absent.
pub open spec fn opt_u32_text(o: Option<u32>) -> Seq<char> {
    match o {
        Some(n) => decimal(n as nat),
        None => "(default)"@,
    }
}

/// An optional flag, `(default)` when absent.
pub open spec fn opt_bool_text(o: Option<bool>) -> Seq<char> {
    match o {
        Some(b) => bool_text(b),
        None => "(default)"@,
    }
}

/// A line: indentation, body, newline.
pub open spec fn line(indent: Seq<char>, body: Seq<char>) -> Seq<char> {
    indent + body + "\n"@
}

/// The summary block of one remembered site.
pub open spec fn site_text(site: Seq<char>, c: SiteConfigView) -> Seq<char> {
    line("  "@, site + ":"@) + line("    "@, row_text("username"@, opt_str_or_none(c.user_name)))
        + line("    "@, row_text("length"@, opt_u32_text(c.length))) + line(
        "    "@,
        row_text("symbols"@, opt_bool_text(c.symbols)),
    )
}

/// The blocks of the remembered sites, in table order.
pub open spec fn sites_text(entries: SiteEntries) -> Seq<char>
    decreases entries.len(),
{
    if entries.len() == 0 {
        Seq::<char>::empty()
    } else {
        sites_text(entries.drop_last()) + site_text(entries.last().0, entries.last().1)
    }
}

/// The defaults section of the summary.
pub open spec fn defaults_text(cfg: Config) -> Seq<char> {
    "Defaults:\n"@ + line("  "@, row_text("username"@, str_or_none(cfg.default_user_name@)))
        + line("  "@, row_text("length"@, decimal(cfg.default_length as nat))) + line(
        "  "@,
        row_text("symbols"@, bool_text(cfg.default_symbols)),
    ) + line("  "@, row_text("timeout"@, decimal(cfg.default_timeout as nat))) + line(
        "  "@,
        row_text("print"@, bool_text(cfg.default_print)),
    ) + line("  "@, row_text("remember"@, bool_text(cfg.default_remember)))
}

/// The remembered-sites section of the summary.
pub open spec fn remembered_text(cfg: Config) -> Seq<char> {
    "Remembered sites:\n"@ + if cfg.sites@.len() == 0 {
        "  (none)\n"@
    } else {
        sites_text(cfg.sites@)
    }
}

/// What `keyforge config` prints for `cfg` stored at `path`.
pub open spec fn config_summary(cfg: Config, path: Seq<char>) -> Seq<char> {
    "Config file: "@ + path + "\n"@ + "\n"@ + defaults_text(cfg) + "\n"@ + remembered_text(cfg)
}

fn row(label: &str, value: &str) -> (r: String)
    ensures
        r@ == row_text(label@, value@),
{
    let mut s = String::from_str(label);
    let len = label.unicode_len();
    let mut n = len;
    proof {
        reveal_strlit(" ");
        assert(s@ =~= label@ + Seq::new(0, |i: int| ' '));
    }
    while n < 8
        invariant
            len == label@.len(),
            len <= n,
            n <= 8 || n == len,
            s@ == label@ + Seq::new((n - len) as nat, |i: int| ' '),
            " "@ == seq![' '],
        decreases 8 - n,
    {
        s.append(" ");
        n = n + 1;
        assert(s@ =~= label@ + Seq::new((n - len) as nat, |i: int| ' '));
    }
    proof {
        if len >= 8 {
            assert(s@ =~= label@);
        }
    }
    s.append(": ");
    s.append(value);
    s
}

fn fmt_str_or_none(s: &str) -> (r: String)
    ensures
        r@ == str_or_none(s@),
{
    if s.is_empty() {
        String::from_str("(none)")
    } else {
        String::from_str(s)
    }
}

fn fmt_opt_str(o: &Option<String>) -> (r: String)
    ensures
        r@ == opt_str_or_none(
            match o {
                Some(s) => Some(s@),
                None => None,
            },
        ),
{
    match o {
        Some(s) => fmt_str_or_none(s.as_str()),
        None => String::from_str("(none)"),
    }
}

fn bool_string(b: bool) -> (r: String)
    ensures
        r@ == bool_text(b),
{
    if b {
        String::from_str("true")
    } else {
        String::from_str("false")
    }
}

fn fmt_opt_u32(o: &Option<u32>) -> (r: String)
    ensures
        r@ == opt_u32_text(*o),
{
    match o {
        Some(n) => decimal_string(*n as u64),
        None => String::from_str("(default)"),
    }
}

fn fmt_opt_bool(o: &Option<bool>) -> (r: String)
    ensures
        r@ == opt_bool_text(*o),
{
    match o {
        Some(b) => bool_string(*b),
        None => String::from_str("(default)"),
    }
}

fn push_line(out: &mut String, indent: &str, body: &str)
    ensures
        final(out)@ == old(out)@ + line(indent@, body@),
{
    out.append(indent);
    out.append(body);
    out.append("\n");
}

fn push_row(out: &mut String, indent: &str, label: &str, value: &str)
    ensures
        final(out)@ == old(out)@ + line(indent@, row_text(label@, value@)),
{
    let r = row(label, value);
    push_line(out, indent, r.as_str());
}

fn push_site(out: &mut String, site: &String, sc: &SiteConfig)
    ensures
        final(out)@ == old(out)@ + site_text(site@, sc@),
{
    let ghost start = out@;
    let mut heading = String::from_str(site.as_str());
    heading.append(":");
    push_line(out, "  ", heading.as_str());
    let user = fmt_opt_str(&sc.user_name);
    push_row(out, "    ", "username", user.as_str());
    let length = fmt_opt_u32(&sc.length);
    push_row(out, "    ", "length", length.as_str());
    let symbols = fmt_opt_bool(&sc.symbols);
    push_row(out, "    ", "symbols", symbols.as_str());
    assert(out@ =~= start + site_text(site@, sc@));
}

fn push_defaults(out: &mut String, cfg: &Config)
    ensures
        final(out)@ == old(out)@ + defaults_text(*cfg),
{
    let ghost start = out@;
    out.append("Defaults:\n");
    let user = fmt_str_or_none(cfg.default_user_name.as_str());
    push_row(out, "  ", "username", user.as_str());
    let length = decimal_string(cfg.default_length as u64);
    push_row(out, "  ", "length", length.as_str());
    let symbols = bool_string(cfg.default_symbols);
    push_row(out, "  ", "symbols", symbols.as_str());
    let timeout = decimal_string(cfg.default_timeout as u64);
    push_row(out, "  ", "timeout", timeout.as_str());
    let print = bool_string(cfg.default_print);
    push_row(out, "  ", "print", print.as_str());
    let remember = bool_string(cfg.default_remember);
    push_row(out, "  ", "remember", remember.as_str());
    assert(out@ =~= start + defaults_text(*cfg));
}

fn push_remembered(out: &mut String, cfg: &Config)
    ensures
        final(out)@ == old(out)@ + remembered_text(*cfg),
        sorted_sites(cfg.sites@),
{
    let ghost middle = out@;
    out.append("Remembered sites:\n");
    if cfg.sites.is_empty() {
        out.append("  (none)\n");
    } else {
        let n = cfg.sites.len();
        let ghost start = out@;
        let ghost entries = cfg.sites@;
        let mut i: usize = 0;
        assert(entries.take(0) =~= Seq::<(Seq<char>, SiteConfigView)>::empty());
        assert(start =~= start + sites_text(entries.take(0)));
        while i < n
            invariant
                n == entries.len(),
                entries == cfg.sites@,
                0 <= i <= n,
                out@ == start + sites_text(entries.take(i as int)),
            decreases n - i,
        {
            let (site, sc) = cfg.sites.entry(i);
            push_site(out, site, sc);
            proof {
                assert(entries.take(i + 1).drop_last() =~= entries.take(i as int));
                assert(entries.take(i + 1).last() == entries[i as int]);
                assert(out@ =~= start + sites_text(entries.take(i + 1)));
            }
            i = i + 1;
        }
        assert(entries.take(n as int) =~= entries);
    }
    assert(out@ =~= middle + remembered_text(*cfg));
}

/// Renders the configuration summary: the file path, the defaults, and every
/// remembered site in ascending site order with its settings.
pub fn render_config_summary(cfg: &Config, path: &str) -> (out: String)
    ensures
        out@ == config_summary(*cfg, path@),
        sorted_sites(cfg.sites@),
{
    let mut out = String::new();
    out.append("Config file: ");
    out.append(path);
    out.append("\n");
    out.append("\n");
    push_defaults(&mut out, cfg);
    out.append("\n");
    push_remembered(&mut out, cfg);
    assert(out@ =~= config_summary(*cfg, path@));
    out
}


/// The characters `(none)`.
pub open spec fn none_word() -> Seq<char> {
    seq!['(', 'n', 'o', 'n', 'e', ')']
}

/// The characters `(default)`.
pub open spec fn default_word() -> Seq<char> {
    seq!['(', 'd', 'e', 'f', 'a', 'u', 'l', 't', ')']
}

/// The characters `true` or `false`.
pub open spec fn flag_word(b: bool) -> Seq<char> {
    if b {
        seq!['t', 'r', 'u', 'e']
    } else {
        seq!['f', 'a', 'l', 's', 'e']
    }
}

/// How a username shows: itself, or `(none)` when absent or empty.
pub open spec fn shown_user(u: Option<Seq<char>>) -> Seq<char> {
    match u {
        Some(name) => if name.len() > 0 {
            name
        } else {
            none_word()
        },
        None => none_word(),
    }
}

/// How a remembered flag shows: `true` for `Some(true)`, `false` for
/// `Some(false)`, `(default)` when absent.
pub open spec fn shown_flag(f: Option<bool>) -> Seq<char> {
    match f {
        Some(b) => flag_word(b),
        None => default_word(),
    }
}

/// How a remembered length shows: its decimal digits, `(default)` when absent.
pub open spec fn shown_length(l: Option<u32>) -> Seq<char> {
    match l {
        Some(n) => decimal(n as nat),
        None => default_word(),
    }
}

/// The block of a remembered site reads, line by line, `  <site>:`, then
/// `    username: `, `    length  : ` and `    symbols : ` followed by the
/// site's own username, length and symbols setting.
pub proof fn lemma_site_block_layout(site: Seq<char>, c: SiteConfigView)
    ensures
        site_text(site, c) == seq![' ', ' '] + site + seq![':', '\n'] + seq![
            ' ', ' ', ' ', ' ', 'u', 's', 'e', 'r', 'n', 'a', 'm', 'e', ':', ' ',
        ] + shown_user(c.user_name) + seq!['\n'] + seq![
            ' ', ' ', ' ', ' ', 'l', 'e', 'n', 'g', 't', 'h', ' ', ' ', ':', ' ',
        ] + shown_length(c.length) + seq!['\n'] + seq![
            ' ', ' ', ' ', ' ', 's', 'y', 'm', 'b', 'o', 'l', 's', ' ', ':', ' ',
        ] + shown_flag(c.symbols) + seq!['\n'],
{
    reveal_strlit("  ");
    reveal_strlit("    ");
    reveal_strlit(":");
    reveal_strlit("\n");
    reveal_strlit(": ");
    reveal_strlit("username");
    reveal_strlit("length");
    reveal_strlit("symbols");
    reveal_strlit("(none)");
    reveal_strlit("(default)");
    reveal_strlit("true");
    reveal_strlit("false");
    assert(padded("username"@) =~= seq!['u', 's', 'e', 'r', 'n', 'a', 'm', 'e']);
    assert(padded("length"@) =~= seq!['l', 'e', 'n', 'g', 't', 'h', ' ', ' ']);
    assert(padded("symbols"@) =~= seq!['s', 'y', 'm', 'b', 'o', 'l', 's', ' ']);
    assert(opt_str_or_none(c.user_name) == shown_user(c.user_name));
    assert(opt_u32_text(c.length) == shown_length(c.length));
    assert(opt_bool_text(c.symbols) == shown_flag(c.symbols));
    assert(site_text(site, c) =~= seq![' ', ' '] + site + seq![':', '\n'] + seq![
        ' ', ' ', ' ', ' ', 'u', 's', 'e', 'r', 'n', 'a', 'm', 'e', ':', ' ',
    ] + shown_user(c.user_name) + seq!['\n'] + seq![
        ' ', ' ', ' ', ' ', 'l', 'e', 'n', 'g', 't', 'h', ' ', ' ', ':', ' ',
    ] + shown_length(c.length) + seq!['\n'] + seq![
        ' ', ' ', ' ', ' ', 's', 'y', 'm', 'b', 'o', 'l', 's', ' ', ':', ' ',
    ] + shown_flag(c.symbols) + seq!['\n']);
}


/// Flags show as the words `true` and `false`: a default as its value, a
/// remembered setting as its value or `(default)` when absent.
pub proof fn lemma_flag_words(b: bool)
    ensures
        bool_text(b) == flag_word(b),
        opt_bool_text(Some(b)) == flag_word(b),
        opt_bool_text(None) == default_word(),
{
    reveal_strlit("true");
    reveal_strlit("false");
    reveal_strlit("(default)");
    assert(bool_text(b) =~= flag_word(b));
    assert(opt_bool_text(None) =~= default_word());
}

} // verus!
