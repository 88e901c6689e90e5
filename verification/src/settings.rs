//! Settings: what the installed system is told, and what the running system suggests.

use vstd::prelude::*;

use crate::backend::{InstallOptions, OptionsView};
use crate::effects::option_view;
use crate::split::{join, joined, lines, lines_of, texts};
use crate::text::{after, find, position_of, starts_with, trim, trim_both, trim_of, trimmed, CharClass};

verus! {

/// The line of `system.ini` for a setting; nothing for a setting that is blank.
pub open spec fn ini_line(key: Seq<char>, value: Seq<char>) -> Seq<char> {
    if trimmed(value).len() == 0 {
        Seq::empty()
    } else {
        key + "="@ + trimmed(value) + "\n"@
    }
}

/// The lines of `system.ini` for the options of an installation.
pub open spec fn ini_body(o: OptionsView) -> Seq<char> {
    ini_line("hostname"@, o.hostname) + ini_line("timezone"@, o.timezone) + ini_line(
        "locale"@,
        o.locale,
    )
}

/// The contents of `system.ini`, if it is to be written: it is not where all settings are
/// blank.
pub open spec fn ini_file(o: OptionsView) -> Option<Seq<char>> {
    if ini_body(o).len() == 0 {
        None
    } else {
        Some(ini_body(o))
    }
}

/// Adds the line for a setting.
fn add_setting(body: &mut String, key: &str, value: &str)
    ensures
        final(body)@ == old(body)@ + ini_line(key@, value@),
{
    let ghost was = body@;
    let v = trim(value);
    if !v.is_empty() {
        body.append(key);
        body.append("=");
        body.append(v);
        body.append("\n");
        assert(body@ =~= was + ini_line(key@, value@));
    } else {
        assert(body@ =~= was + ini_line(key@, value@));
    }
}

/// The contents of `system.ini` for the options of an installation, if it is to be written.
pub fn system_ini(opts: &InstallOptions) -> (r: Option<String>)
    ensures
        r is Some <==> ini_file(opts@) is Some,
        r matches Some(t) ==> ini_file(opts@) == Some(t@),
{
    let mut body = String::new();
    add_setting(&mut body, "hostname", opts.hostname.as_str());
    add_setting(&mut body, "timezone", opts.timezone.as_str());
    add_setting(&mut body, "locale", opts.locale.as_str());
    assert(body@ =~= ini_body(opts@));
    if body.as_str().is_empty() {
        None
    } else {
        Some(body)
    }
}

/// `system.ini` is written exactly where some setting is not blank.
pub proof fn law_ini_is_written_for_any_setting(o: OptionsView)
    ensures
        ini_file(o) is Some <==> trimmed(o.hostname).len() > 0 || trimmed(o.timezone).len() > 0
            || trimmed(o.locale).len() > 0,
{
    reveal_strlit("=");
}

/// The time zone that a link to a zone file names: what follows `zoneinfo/`.
pub open spec fn zone_of_link(target: Option<Seq<char>>) -> Seq<char> {
    match target {
        Some(t) => match find(t, "zoneinfo/"@) {
            Some(i) => t.skip(i + "zoneinfo/"@.len()),
            None => "UTC"@,
        },
        None => "UTC"@,
    }
}

/// The time zone to suggest, from the target of the link `/etc/localtime`.
pub fn default_timezone(target: Option<&str>) -> (r: String)
    ensures
        r@ == zone_of_link(option_view(target)),
{
    match target {
        Some(t) => match position_of(t, "zoneinfo/") {
            Some(i) => {
                proof {
                    reveal_strlit("zoneinfo/");
                }
                after(t, i + 9).to_owned()
            },
            None => "UTC".to_owned(),
        },
        None => "UTC".to_owned(),
    }
}

/// The value of the first line that sets `LANG`, from the line of number `i` on.
pub open spec fn lang_setting(all: Seq<Seq<char>>, i: int) -> Option<Seq<char>>
    decreases all.len() - i,
{
    if i < 0 || i >= all.len() {
        None
    } else if "LANG="@.is_prefix_of(all[i]) {
        Some(trim_both(trimmed(all[i].skip("LANG="@.len() as int)), CharClass::Only('"')))
    } else {
        lang_setting(all, i + 1)
    }
}

/// The locale to suggest, from the variable `LANG` and from `/etc/locale.conf`.
pub open spec fn suggested_locale(lang: Option<Seq<char>>, conf: Option<Seq<char>>) -> Seq<char> {
    if lang matches Some(l) && l.len() > 0 {
        lang->0
    } else if conf matches Some(c) && lang_setting(lines(c), 0) is Some {
        lang_setting(lines(conf->0), 0)->0
    } else {
        "C"@
    }
}

/// The locale to suggest, from the variable `LANG` and from `/etc/locale.conf`.
pub fn default_locale(lang: Option<&str>, conf: Option<&str>) -> (r: String)
    ensures
        r@ == suggested_locale(option_view(lang), option_view(conf)),
{
    match lang {
        Some(l) => {
            if !l.is_empty() {
                return l.to_owned();
            }
        },
        None => {},
    }
    match conf {
        Some(c) => {
            let all = lines_of(c);
            let mut i: usize = 0;
            while i < all.len()
                invariant
                    i <= all@.len(),
                    texts(all@) == lines(c@),
                    lang_setting(lines(c@), 0) == lang_setting(lines(c@), i as int),
                    !(option_view(lang) matches Some(l) && l.len() > 0),
                    conf == Some(c),
                decreases all@.len() - i,
            {
                let line: &str = all[i];
                assert(texts(all@)[i as int] == line@);
                if starts_with(line, "LANG=") {
                    proof {
                        reveal_strlit("LANG=");
                    }
                    return trim_of(trim(after(line, 5)), CharClass::Only('"')).to_owned();
                }
                i = i + 1;
            }
        },
        None => {},
    }
    "C".to_owned()
}

/// A line of an `authorized_keys` file holds a key: it is neither blank nor a comment.
pub open spec fn key_of_line(line: Seq<char>) -> Option<Seq<char>> {
    let l = trimmed(line);
    if l.len() == 0 || l[0] == '#' {
        None
    } else {
        Some(l)
    }
}

/// The keys of an `authorized_keys` file, one per line.
pub open spec fn keys_in(text: Seq<char>) -> Seq<char> {
    joined(lines(text).filter_map(|l: Seq<char>| key_of_line(l)), "\n"@)
}

/// The keys to suggest, from an `authorized_keys` file; none where it cannot be read.
pub fn default_authorized_keys(text: Option<&str>) -> (r: String)
    ensures
        match text {
            Some(t) => r@ == keys_in(t@),
            None => r@ == ""@,
        },
{
    match text {
        Some(t) => authorized_keys(t),
        None => "".to_owned(),
    }
}

/// The keys of an `authorized_keys` file, one per line, without blank lines and comments.
fn authorized_keys(text: &str) -> (r: String)
    ensures
        r@ == keys_in(text@),
{
    let all = lines_of(text);
    let ghost every = lines(text@);
    let ghost pick = |l: Seq<char>| key_of_line(l);
    let mut kept: Vec<&str> = Vec::new();
    let mut i: usize = 0;
    assert(every.take(0).filter_map(pick) =~= Seq::empty()) by {
        reveal(Seq::filter_map);
    }
    while i < all.len()
        invariant
            i <= all@.len(),
            every == texts(all@),
            pick == (|l: Seq<char>| key_of_line(l)),
            texts(kept@) == every.take(i as int).filter_map(pick),
        decreases all@.len() - i,
    {
        let ghost was = kept@;
        let line: &str = all[i];
        assert(every[i as int] == line@);
        proof {
            every.lemma_filter_map_take_succ(pick, i as int);
            reveal_strlit("#");
        }
        let l = trim(line);
        let comment = starts_with(l, "#");
        proof {
            if l@.len() > 0 {
                assert(l@.subrange(0, 1) =~= seq![l@[0]]);
                assert("#"@ =~= seq!['#']);
                if l@[0] != '#' {
                    assert(l@.subrange(0, 1)[0] != "#"@[0]);
                }
            }
        }
        if !l.is_empty() && !comment {
            kept.push(l);
            assert(texts(kept@) =~= texts(was).push(l@));
        }
        i = i + 1;
    }
    assert(every.take(i as int) =~= every);
    join(&kept, "\n")
}

} // verus!
