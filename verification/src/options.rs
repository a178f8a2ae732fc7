//! Resolving the options of `gen` from arguments and configuration, checking
//! them, remembering a site, and deriving the password.
use vstd::prelude::*;
use vstd::utf8::encode_utf8;

use crate::cli::GenArgs;
use crate::config::{lookup, Config, SiteConfig, SiteConfigView};
use crate::crypto::{argon2_inputs_valid, build_salt, derived_key, generate_key, salt_bytes};
use crate::encode::{
    charset_of, class_views, covers, encode, encoded, lemma_charset_holds_class,
    lemma_encoded_password_shape, uses_class, BUILTIN_SYMBOLS, DIGIT, LOWER, UPPER,
};
use crate::order::str_eq;
use crate::sensitive::SecretVec;
use crate::text::{lowercase, to_lowercase};

verus! {

/// The options of one `gen` run, after arguments and configuration are merged.
pub struct ResolvedOptions {
    pub site: String,
    pub username: String,
    pub length: u32,
    pub symbols: bool,
    pub timeout: u32,
    pub print: bool,
    pub remember: bool,
}

/// The username before lower-casing: the argument, else the site's remembered
/// username, else the default username.
pub open spec fn chosen_username(args: GenArgs, cfg: Config, site: Seq<char>) -> Seq<char> {
    match args.username {
        Some(u) => u@,
        None => match lookup(cfg.sites@, site) {
            Some(sc) => match sc.user_name {
                Some(u) => u,
                None => cfg.default_user_name@,
            },
            None => cfg.default_user_name@,
        },
    }
}

/// The length: the argument, else the site's remembered length, else the default.
pub open spec fn chosen_length(args: GenArgs, cfg: Config, site: Seq<char>) -> u32 {
    match args.length {
        Some(l) => l,
        None => match lookup(cfg.sites@, site) {
            Some(sc) => match sc.length {
                Some(l) => l,
                None => cfg.default_length,
            },
            None => cfg.default_length,
        },
    }
}

/// Symbols: on with `-s`, else the site's remembered choice, else the default.
pub open spec fn chosen_symbols(args: GenArgs, cfg: Config, site: Seq<char>) -> bool {
    if args.symbols {
        true
    } else {
        match lookup(cfg.sites@, site) {
            Some(sc) => match sc.symbols {
                Some(s) => s,
                None => cfg.default_symbols,
            },
            None => cfg.default_symbols,
        }
    }
}

/// Merges the arguments of `gen` with the configuration for the normalized
/// `site`: arguments first, then the site's remembered settings, then the
/// defaults. The username is lower-cased.
pub fn resolve_options(args: &GenArgs, cfg: &Config, site: String) -> (o: ResolvedOptions)
    ensures
        o.site@ == site@,
        o.username@ == lowercase(chosen_username(*args, *cfg, site@)),
        o.length == chosen_length(*args, *cfg, site@),
        o.symbols == chosen_symbols(*args, *cfg, site@),
        o.timeout == (match args.timeout {
            Some(t) => t,
            None => cfg.default_timeout,
        }),
        o.print == (args.print || cfg.default_print),
        o.remember == (args.remember || cfg.default_remember),
{
    let site_cfg = cfg.sites.get(site.as_str());
    let username_source: &str = match &args.username {
        Some(u) => u.as_str(),
        None => match site_cfg {
            Some(sc) => match &sc.user_name {
                Some(u) => u.as_str(),
                None => cfg.default_user_name.as_str(),
            },
            None => cfg.default_user_name.as_str(),
        },
    };
    let username = to_lowercase(username_source);
    let length = match args.length {
        Some(l) => l,
        None => match site_cfg {
            Some(sc) => match sc.length {
                Some(l) => l,
                None => cfg.default_length,
            },
            None => cfg.default_length,
        },
    };
    let symbols = if args.symbols {
        true
    } else {
        match site_cfg {
            Some(sc) => match sc.symbols {
                Some(s) => s,
                None => cfg.default_symbols,
            },
            None => cfg.default_symbols,
        }
    };
    let timeout = match args.timeout {
        Some(t) => t,
        None => cfg.default_timeout,
    };
    ResolvedOptions {
        site,
        username,
        length,
        symbols,
        timeout,
        print: args.print || cfg.default_print,
        remember: args.remember || cfg.default_remember,
    }
}

/// Whether the site is unknown to the configuration, so that the master
/// password is asked for twice.
pub fn is_new_site(cfg: &Config, site: &str) -> (new: bool)
    ensures
        new == (lookup(cfg.sites@, site@) is None),
{
    cfg.sites.get(site).is_none()
}

/// Checks the resolved options: the length must be 12 to 128 and the
/// clipboard timeout at most 3600 seconds.
pub fn valid_options(options: &ResolvedOptions) -> (r: Result<(), String>)
    ensures
        options.length < 12 ==> r is Err && r->Err_0@ == "password length must be at least 12"@,
        12 <= options.length && options.length > 128 ==> r is Err && r->Err_0@
            == "password length must be at most 128"@,
        12 <= options.length <= 128 && options.timeout > 3600 ==> r is Err && r->Err_0@
            == "clipboard timeout must be at most 3600"@,
        12 <= options.length <= 128 && options.timeout <= 3600 ==> r is Ok,
{
    if options.length < 12 {
        return Err(String::from_str("password length must be at least 12"));
    }
    if options.length > 128 {
        return Err(String::from_str("password length must be at most 128"));
    }
    if options.timeout > 3600 {
        return Err(String::from_str("clipboard timeout must be at most 3600"));
    }
    Ok(())
}

/// The character classes of a password: lower case, upper case and digits,
/// and the built-in symbols when `symbols` is set.
pub open spec fn password_class_views(symbols: bool) -> Seq<Seq<u8>> {
    if symbols {
        seq![LOWER@, UPPER@, DIGIT@, encode_utf8(BUILTIN_SYMBOLS@)]
    } else {
        seq![LOWER@, UPPER@, DIGIT@]
    }
}

/// The character classes of a password, as `encode` takes them.
pub fn password_classes(symbols: bool) -> (classes: Vec<&'static [u8]>)
    ensures
        class_views(classes@) == password_class_views(symbols),
{
    let mut classes: Vec<&'static [u8]> = Vec::new();
    classes.push(LOWER.as_slice());
    classes.push(UPPER.as_slice());
    classes.push(DIGIT.as_slice());
    if symbols {
        classes.push(BUILTIN_SYMBOLS.as_bytes());
    }
    assert(class_views(classes@) =~= password_class_views(symbols));
    classes
}

/// The password that the whole derivation gives: the salt from site and
/// username, the Argon2id key from the master password, and the encoding of
/// that key.
pub open spec fn derived_password(
    master: Seq<u8>,
    site: Seq<char>,
    username: Seq<char>,
    length: u32,
    symbols: bool,
) -> Result<Seq<u8>, Seq<char>> {
    encoded(
        derived_key(master, salt_bytes(site, username)),
        length,
        password_class_views(symbols),
    )
}

/// Derives the site password: builds the salt, derives the key with Argon2id
/// and encodes it with the classes that `symbols` selects. Fails when Argon2
/// refuses its inputs or when the encoding fails.
pub fn derive_password(
    master: &SecretVec,
    site: &str,
    username: &str,
    length: u32,
    symbols: bool,
) -> (r: Result<SecretVec, String>)
    ensures
        !argon2_inputs_valid(master@.len(), salt_bytes(site@, username@).len()) ==> r is Err,
        argon2_inputs_valid(master@.len(), salt_bytes(site@, username@).len()) ==> match r {
            Ok(p) => derived_password(master@, site@, username@, length, symbols) == Ok::<
                Seq<u8>,
                Seq<char>,
            >(p@),
            Err(e) => derived_password(master@, site@, username@, length, symbols) == Err::<
                Seq<u8>,
                Seq<char>,
            >(e@),
        },
{
    let salt = build_salt(site, username);
    let key = generate_key(master, salt.as_slice())?;
    let classes = password_classes(symbols);
    assert(charset_of(class_views(classes@)).len() > 0) by {
        lemma_charset_holds_class(class_views(classes@), 0);
    }
    encode(&key, length, classes.as_slice())
}

/// Every derived password has the requested length, at least one lower-case
/// letter, one upper-case letter and one digit (and one symbol when symbols
/// are on), and no character outside these classes.
pub proof fn lemma_derived_password_shape(
    master: Seq<u8>,
    site: Seq<char>,
    username: Seq<char>,
    length: u32,
    symbols: bool,
)
    ensures
        derived_password(master, site, username, length, symbols) matches Ok(p) ==> {
            &&& p.len() == length
            &&& covers(p, password_class_views(symbols))
            &&& forall|i: int|
                0 <= i < p.len() ==> charset_of(password_class_views(symbols)).contains(
                    #[trigger] p[i],
                )
        },
{
    lemma_charset_holds_class(password_class_views(symbols), 0);
    lemma_encoded_password_shape(
        derived_key(master, salt_bytes(site, username)),
        length,
        password_class_views(symbols),
    );
}

/// The same master password, site, username, length and symbols switch always
/// give the same password: nothing else enters the derivation.
pub proof fn lemma_same_inputs_same_password(
    master: Seq<u8>,
    site: Seq<char>,
    username: Seq<char>,
    length: u32,
    symbols: bool,
    first: Seq<u8>,
    second: Seq<u8>,
)
    requires
        derived_password(master, site, username, length, symbols) == Ok::<Seq<u8>, Seq<char>>(
            first,
        ),
        derived_password(master, site, username, length, symbols) == Ok::<Seq<u8>, Seq<char>>(
            second,
        ),
    ensures
        first == second,
{
}

/// The question asked before a remembered username is overwritten.
pub open spec fn overwrite_prompt(site: Seq<char>, existing: Option<Seq<char>>, username: Seq<
    char,
>) -> Seq<char> {
    site + " is remembered as "@ + match existing {
        Some(u) => u,
        None => "(none)"@,
    } + "; overwrite with "@ + username + "? [y/N] "@
}

/// What `--remember` does for the resolved options.
pub enum RememberAction {
    /// Save the site's settings.
    Save,
    /// Ask this question first; save only on yes.
    Confirm(String),
}

/// Saving is direct for a new site or the same username; a site remembered
/// with another username (or none) asks first.
pub fn remember_action(cfg: &Config, options: &ResolvedOptions) -> (a: RememberAction)
    ensures
        match lookup(cfg.sites@, options.site@) {
            Some(sc) => if sc.user_name != Some(options.username@) {
                a matches RememberAction::Confirm(q) && q@ == overwrite_prompt(
                    options.site@,
                    sc.user_name,
                    options.username@,
                )
            } else {
                a is Save
            },
            None => a is Save,
        },
{
    match cfg.sites.get(options.site.as_str()) {
        Some(existing) => {
            let same = match &existing.user_name {
                Some(u) => str_eq(u.as_str(), options.username.as_str()),
                None => false,
            };
            if same {
                RememberAction::Save
            } else {
                let mut q = String::from_str(options.site.as_str());
                q.append(" is remembered as ");
                match &existing.user_name {
                    Some(u) => q.append(u.as_str()),
                    None => q.append("(none)"),
                }
                q.append("; overwrite with ");
                q.append(options.username.as_str());
                q.append("? [y/N] ");
                RememberAction::Confirm(q)
            }
        },
        None => RememberAction::Save,
    }
}

/// The settings that `--remember` stores for a site.
pub open spec fn remembered_settings(options: ResolvedOptions) -> SiteConfigView {
    SiteConfigView {
        user_name: Some(options.username@),
        length: Some(options.length),
        symbols: Some(options.symbols),
    }
}

/// Stores username, length and symbols of `options` for its site; other
/// sites and the defaults stay as they were.
pub fn remember_site(cfg: &mut Config, options: &ResolvedOptions)
    ensures
        lookup(final(cfg).sites@, options.site@) == Some(remembered_settings(*options)),
        forall|other: Seq<char>|
            other != options.site@ ==> lookup(final(cfg).sites@, other) == lookup(
                old(cfg).sites@,
                other,
            ),
        final(cfg).default_user_name == old(cfg).default_user_name,
        final(cfg).default_length == old(cfg).default_length,
        final(cfg).default_symbols == old(cfg).default_symbols,
        final(cfg).default_timeout == old(cfg).default_timeout,
        final(cfg).default_print == old(cfg).default_print,
        final(cfg).default_remember == old(cfg).default_remember,
{
    let settings = SiteConfig {
        user_name: Some(options.username.clone()),
        length: Some(options.length),
        symbols: Some(options.symbols),
    };
    cfg.sites.insert(options.site.clone(), settings);
}


/// What `--remember` stores is what a later run finds: with no username,
/// length or `-s` on the command line, the options resolve to the remembered
/// username (lower-cased again), length and symbols.
pub proof fn lemma_remembered_site_resolves(args: GenArgs, cfg: Config, options: ResolvedOptions)
    requires
        lookup(cfg.sites@, options.site@) == Some(remembered_settings(options)),
        args.username is None,
        args.length is None,
        !args.symbols,
    ensures
        chosen_username(args, cfg, options.site@) == options.username@,
        chosen_length(args, cfg, options.site@) == options.length,
        chosen_symbols(args, cfg, options.site@) == options.symbols,
{
}

/// Arguments win over remembered settings, which win over the defaults.
pub proof fn lemma_arguments_take_precedence(args: GenArgs, cfg: Config, site: Seq<char>)
    ensures
        args.username matches Some(u) ==> chosen_username(args, cfg, site) == u@,
        args.length matches Some(l) ==> chosen_length(args, cfg, site) == l,
        args.symbols ==> chosen_symbols(args, cfg, site),
        lookup(cfg.sites@, site) is None ==> {
            &&& args.username is None ==> chosen_username(args, cfg, site)
                == cfg.default_user_name@
            &&& args.length is None ==> chosen_length(args, cfg, site) == cfg.default_length
            &&& !args.symbols ==> chosen_symbols(args, cfg, site) == cfg.default_symbols
        },
{
}


/// The `n` consecutive byte values from `first` on.
pub open spec fn byte_run(first: nat, n: nat) -> Seq<u8> {
    Seq::new(n, |i: int| (first + i) as u8)
}

/// The classes of a derived password are exactly `a-z`, `A-Z` and `0-9`, and
/// with symbols on also `!@#$%^&*`.
pub proof fn lemma_password_classes_exact(symbols: bool)
    ensures
        !symbols ==> password_class_views(symbols) == seq![
            byte_run(97, 26),
            byte_run(65, 26),
            byte_run(48, 10),
        ],
        symbols ==> password_class_views(symbols) == seq![
            byte_run(97, 26),
            byte_run(65, 26),
            byte_run(48, 10),
            seq![33u8, 64u8, 35u8, 36u8, 37u8, 94u8, 38u8, 42u8],
        ],
{
    assert(LOWER@ =~= byte_run(97, 26));
    assert(UPPER@ =~= byte_run(65, 26));
    assert(DIGIT@ =~= byte_run(48, 10));
    reveal_strlit("!@#$%^&*");
    let sym = BUILTIN_SYMBOLS@;
    assert(sym =~= seq!['!', '@', '#', '$', '%', '^', '&', '*']);
    assert(vstd::utf8::is_ascii_chars(sym));
    vstd::utf8::is_ascii_chars_encode_utf8(sym);
    assert(encode_utf8(sym) =~= seq![33u8, 64u8, 35u8, 36u8, 37u8, 94u8, 38u8, 42u8]);
}


/// Whether `b` is one of `!@#$%^&*`.
pub open spec fn is_builtin_symbol(b: u8) -> bool {
    b == 33 || b == 64 || b == 35 || b == 36 || b == 37 || b == 94 || b == 38 || b == 42
}

proof fn lemma_run_contains(first: nat, n: nat, x: u8)
    requires
        first + n <= 256,
        byte_run(first, n).contains(x),
    ensures
        first <= x < first + n,
{
    let j = choose|j: int| 0 <= j < n && byte_run(first, n)[j] == x;
    assert(byte_run(first, n)[j] == (first + j) as u8);
}

/// Every derived password has a lower-case letter, an upper-case letter and a
/// digit (and, with symbols on, one of `!@#$%^&*`), and every character is an
/// ASCII letter or digit or, with symbols on, one of `!@#$%^&*`.
pub proof fn lemma_derived_password_kinds(
    master: Seq<u8>,
    site: Seq<char>,
    username: Seq<char>,
    length: u32,
    symbols: bool,
)
    ensures
        derived_password(master, site, username, length, symbols) matches Ok(p) ==> {
            &&& exists|i: int| 0 <= i < p.len() && 97 <= #[trigger] p[i] <= 122
            &&& exists|i: int| 0 <= i < p.len() && 65 <= #[trigger] p[i] <= 90
            &&& exists|i: int| 0 <= i < p.len() && 48 <= #[trigger] p[i] <= 57
            &&& symbols ==> exists|i: int| 0 <= i < p.len() && is_builtin_symbol(#[trigger] p[i])
            &&& forall|i: int|
                0 <= i < p.len() ==> {
                    ||| 97 <= #[trigger] p[i] <= 122
                    ||| 65 <= p[i] <= 90
                    ||| 48 <= p[i] <= 57
                    ||| symbols && is_builtin_symbol(p[i])
                }
        },
{
    lemma_derived_password_shape(master, site, username, length, symbols);
    lemma_password_classes_exact(symbols);
    let classes = password_class_views(symbols);
    let lower = byte_run(97, 26);
    let upper = byte_run(65, 26);
    let digit = byte_run(48, 10);
    let sym = seq![33u8, 64u8, 35u8, 36u8, 37u8, 94u8, 38u8, 42u8];
    if let Ok(p) = derived_password(master, site, username, length, symbols) {
        assert(uses_class(p, classes[0]));
        assert(uses_class(p, classes[1]));
        assert(uses_class(p, classes[2]));
        let a = choose|i: int| 0 <= i < p.len() && #[trigger] classes[0].contains(p[i]);
        lemma_run_contains(97, 26, p[a]);
        let b = choose|i: int| 0 <= i < p.len() && #[trigger] classes[1].contains(p[i]);
        lemma_run_contains(65, 26, p[b]);
        let c = choose|i: int| 0 <= i < p.len() && #[trigger] classes[2].contains(p[i]);
        lemma_run_contains(48, 10, p[c]);
        if symbols {
            assert(uses_class(p, classes[3]));
            let d = choose|i: int| 0 <= i < p.len() && #[trigger] classes[3].contains(p[i]);
            let k = choose|k: int| 0 <= k < 8 && sym[k] == p[d];
            assert(is_builtin_symbol(p[d]));
        }
        let cs = charset_of(classes);
        let c1 = seq![lower];
        let c2 = seq![lower, upper];
        let c3 = seq![lower, upper, digit];
        let c4 = seq![lower, upper, digit, sym];
        assert(c1.drop_last() =~= Seq::<Seq<u8>>::empty());
        assert(charset_of(Seq::<Seq<u8>>::empty()) =~= Seq::<u8>::empty());
        assert(charset_of(c1) == charset_of(c1.drop_last()) + c1.last());
        assert(charset_of(c1) =~= lower);
        assert(c2.drop_last() =~= c1);
        assert(charset_of(c2) =~= lower + upper);
        assert(c3.drop_last() =~= c2);
        assert(charset_of(c3) =~= lower + upper + digit);
        assert(c4.drop_last() =~= c3);
        assert(charset_of(c4) =~= lower + upper + digit + sym);
        assert forall|i: int| 0 <= i < p.len() implies {
            ||| 97 <= #[trigger] p[i] <= 122
            ||| 65 <= p[i] <= 90
            ||| 48 <= p[i] <= 57
            ||| symbols && is_builtin_symbol(p[i])
        } by {
            assert(cs.contains(p[i]));
            let j = choose|j: int| 0 <= j < cs.len() && cs[j] == p[i];
            if j < 26 {
                assert(cs[j] == lower[j]);
            } else if j < 52 {
                assert(cs[j] == upper[j - 26]);
            } else if j < 62 {
                assert(cs[j] == digit[j - 52]);
            } else {
                assert(cs[j] == sym[j - 62]);
            }
        }
    }
}


/// Each setting is resolved on its own, whatever the other arguments are: the
/// argument if given; else the site's remembered value (`sc`) if it has one;
/// else the default. `-s` only ever switches symbols on.
pub proof fn lemma_resolution_per_setting(
    args: GenArgs,
    cfg: Config,
    site: Seq<char>,
    sc: SiteConfigView,
)
    ensures
        args.length is Some ==> chosen_length(args, cfg, site) == args.length->0,
        args.length is None && lookup(cfg.sites@, site) == Some(sc) && sc.length is Some
            ==> chosen_length(args, cfg, site) == sc.length->0,
        args.length is None && lookup(cfg.sites@, site) == Some(sc) && sc.length is None
            ==> chosen_length(args, cfg, site) == cfg.default_length,
        args.length is None && lookup(cfg.sites@, site) is None ==> chosen_length(args, cfg, site)
            == cfg.default_length,
        args.username is Some ==> chosen_username(args, cfg, site) == args.username->0@,
        args.username is None && lookup(cfg.sites@, site) == Some(sc) && sc.user_name is Some
            ==> chosen_username(args, cfg, site) == sc.user_name->0,
        args.username is None && lookup(cfg.sites@, site) == Some(sc) && sc.user_name is None
            ==> chosen_username(args, cfg, site) == cfg.default_user_name@,
        args.username is None && lookup(cfg.sites@, site) is None ==> chosen_username(
            args,
            cfg,
            site,
        ) == cfg.default_user_name@,
        args.symbols ==> chosen_symbols(args, cfg, site),
        !args.symbols && lookup(cfg.sites@, site) == Some(sc) && sc.symbols is Some
            ==> chosen_symbols(args, cfg, site) == sc.symbols->0,
        !args.symbols && lookup(cfg.sites@, site) == Some(sc) && sc.symbols is None
            ==> chosen_symbols(args, cfg, site) == cfg.default_symbols,
        !args.symbols && lookup(cfg.sites@, site) is None ==> chosen_symbols(args, cfg, site)
            == cfg.default_symbols,
{
}

} // verus!
