//! Laws on settings: what is written can be read back, and what is suggested is what the
//! running system says.

use vstd::prelude::*;

use crate::backend::OptionsView;
use crate::settings::{
    ini_body, ini_file, ini_line, key_of_line, keys_in, lang_setting, suggested_locale, zone_of_link,
};
use crate::split::{first_of, joined, law_first_of_is_the_first, lines, without_return};
use crate::text::{is_whitespace, trim_both, trimmed, CharClass};
use crate::text_laws::{
    are_positions, law_absent_text_is_not_found, law_joining_separates, law_lines_come_apart,
    law_text_is_found, law_trimming_takes_nothing_else, lemma_picked,
};

verus! {

/// A text without line feeds.
pub open spec fn is_one_line(s: Seq<char>) -> bool {
    forall|i: int| 0 <= i < s.len() ==> s[i] != '\n'
}

/// A trimmed text does not end with a carriage return.
proof fn lemma_trimmed_end(s: Seq<char>)
    ensures
        trimmed(s).len() > 0 ==> !is_whitespace(trimmed(s)[0]) && !is_whitespace(trimmed(s).last())
            && trimmed(s).last() != '\r',
{
    let parts = law_trimming_takes_nothing_else(s, CharClass::Whitespace);
}

proof fn lemma_setting_line(key: Seq<char>, value: Seq<char>, rest: Seq<char>)
    requires
        is_one_line(key),
        is_one_line(trimmed(value)),
    ensures
        lines(ini_line(key, value) + rest) == (if trimmed(value).len() > 0 {
            seq![key + "="@ + trimmed(value)]
        } else {
            Seq::<Seq<char>>::empty()
        }) + lines(rest),
{
    let v = trimmed(value);
    if v.len() == 0 {
        assert(ini_line(key, value) + rest =~= rest);
        assert(Seq::<Seq<char>>::empty() + lines(rest) =~= lines(rest));
    } else {
        reveal_strlit("=");
        let line = key + "="@ + v;
        assert(ini_line(key, value) + rest =~= line + "\n"@ + rest);
        lemma_trimmed_end(value);
        assert(line.last() == v.last());
        law_lines_come_apart(line, rest);
    }
}

/// The settings file gives each setting back. Its lines are `hostname=`, `timezone=` and
/// `locale=`, in this order, each with the whole text that was entered for it, of whatever
/// length, without the white space around it; a setting that is blank has no line.
pub proof fn law_settings_are_read_back(o: OptionsView)
    requires
        is_one_line(trimmed(o.hostname)),
        is_one_line(trimmed(o.timezone)),
        is_one_line(trimmed(o.locale)),
    ensures
        lines(
            match ini_file(o) {
                Some(text) => text,
                None => ""@,
            },
        ) == (if trimmed(o.hostname).len() > 0 {
            seq!["hostname="@ + trimmed(o.hostname)]
        } else {
            Seq::<Seq<char>>::empty()
        }) + (if trimmed(o.timezone).len() > 0 {
            seq!["timezone="@ + trimmed(o.timezone)]
        } else {
            Seq::<Seq<char>>::empty()
        }) + (if trimmed(o.locale).len() > 0 {
            seq!["locale="@ + trimmed(o.locale)]
        } else {
            Seq::<Seq<char>>::empty()
        }),
{
    reveal_strlit("hostname");
    reveal_strlit("timezone");
    reveal_strlit("locale");
    reveal_strlit("hostname=");
    reveal_strlit("timezone=");
    reveal_strlit("locale=");
    reveal_strlit("=");
    reveal_strlit("");
    let h = ini_line("hostname"@, o.hostname);
    let t = ini_line("timezone"@, o.timezone);
    let l = ini_line("locale"@, o.locale);
    lemma_setting_line("hostname"@, o.hostname, t + l);
    lemma_setting_line("timezone"@, o.timezone, l);
    lemma_setting_line("locale"@, o.locale, ""@);
    assert(h + (t + l) =~= ini_body(o));
    assert(l + ""@ =~= l);
    assert(lines(""@) =~= Seq::empty());
    assert("hostname"@ + "="@ =~= "hostname="@);
    assert("timezone"@ + "="@ =~= "timezone="@);
    assert("locale"@ + "="@ =~= "locale="@);
    assert(ini_body(o).len() == 0 ==> ini_body(o) =~= ""@);
}

/// The settings file is written whole, whatever was entered: a line for each setting that is
/// not blank, and nothing else. It is not written where all are blank.
pub proof fn law_settings_are_written_whole(o: OptionsView)
    ensures
        ({
            let h = trimmed(o.hostname);
            let t = trimmed(o.timezone);
            let l = trimmed(o.locale);
            let text = (if h.len() > 0 {
                "hostname="@ + h + "\n"@
            } else {
                ""@
            }) + (if t.len() > 0 {
                "timezone="@ + t + "\n"@
            } else {
                ""@
            }) + (if l.len() > 0 {
                "locale="@ + l + "\n"@
            } else {
                ""@
            });
            if h.len() == 0 && t.len() == 0 && l.len() == 0 {
                ini_file(o) is None
            } else {
                ini_file(o) == Some(text)
            }
        }),
{
    reveal_strlit("hostname");
    reveal_strlit("timezone");
    reveal_strlit("locale");
    reveal_strlit("hostname=");
    reveal_strlit("timezone=");
    reveal_strlit("locale=");
    reveal_strlit("=");
    reveal_strlit("");
    assert("hostname"@ + "="@ =~= "hostname="@);
    assert("timezone"@ + "="@ =~= "timezone="@);
    assert("locale"@ + "="@ =~= "locale="@);
    assert(Seq::<char>::empty() =~= ""@);
    assert(""@ + ""@ + ""@ =~= ""@);
}

/// The time zone is what follows the first `zoneinfo/` of the link, whatever it is.
pub proof fn law_time_zone_of_link(front: Seq<char>, zone: Seq<char>)
    requires
        forall|j: int|
            0 <= j < front.len() ==> #[trigger] (front + "zoneinfo/"@ + zone).subrange(j, j + 9)
                != "zoneinfo/"@,
    ensures
        zone_of_link(Some(front + "zoneinfo/"@ + zone)) == zone,
        zone_of_link(None) == "UTC"@,
{
    reveal_strlit("zoneinfo/");
    law_text_is_found(front, "zoneinfo/"@, zone);
    assert((front + "zoneinfo/"@ + zone).skip(front.len() + 9 as int) =~= zone);
}

/// A link that goes elsewhere gives no time zone: `UTC` is suggested.
pub proof fn law_other_links_give_no_zone(target: Seq<char>)
    requires
        forall|j: int|
            0 <= j && j + 9 <= target.len() ==> #[trigger] target.subrange(j, j + 9)
                != "zoneinfo/"@,
    ensures
        zone_of_link(Some(target)) == "UTC"@,
{
    reveal_strlit("zoneinfo/");
    law_absent_text_is_not_found(target, "zoneinfo/"@);
}

/// What the variable `LANG` says is suggested as it is; where it is not set or empty, the
/// first line of the file that sets `LANG` counts, without the white space and the quotation
/// marks around its value; where there is none, `C` is suggested.
pub proof fn law_locale_is_suggested(
    lang: Option<Seq<char>>,
    conf: Option<Seq<char>>,
    k: int,
    v: Seq<char>,
)
    ensures
        (lang matches Some(l) && l.len() > 0) ==> suggested_locale(lang, conf) == lang->0,
        (lang is None || lang == Some(""@)) && conf is None ==> suggested_locale(lang, conf) == "C"@,
        (lang is None || lang == Some(""@)) && (conf matches Some(c) && 0 <= k < lines(c).len()
            && lines(c)[k] == "LANG="@ + v && forall|j: int|
            0 <= j < k ==> !"LANG="@.is_prefix_of(#[trigger] lines(c)[j])) ==> suggested_locale(
            lang,
            conf,
        ) == trim_both(trimmed(v), CharClass::Only('"')),
        (lang is None || lang == Some(""@)) && (conf matches Some(c) && forall|j: int|
            0 <= j < lines(c).len() ==> !"LANG="@.is_prefix_of(#[trigger] lines(c)[j]))
            ==> suggested_locale(lang, conf) == "C"@,
{
    reveal_strlit("");
    reveal_strlit("LANG=");
    if let Some(c) = conf {
        let all = lines(c);
        if 0 <= k < all.len() && all[k] == "LANG="@ + v && forall|j: int|
            0 <= j < k ==> !"LANG="@.is_prefix_of(#[trigger] all[j]) {
            assert(all[k].subrange(0, 5) =~= "LANG="@);
            assert("LANG="@.is_prefix_of(all[k]));
            assert(all[k].skip(5) =~= v);
            lemma_first_setting(all, 0, k);
        }
        if forall|j: int| 0 <= j < all.len() ==> !"LANG="@.is_prefix_of(#[trigger] all[j]) {
            lemma_first_setting(all, 0, all.len() as int);
        }
    }
}

proof fn lemma_first_setting(all: Seq<Seq<char>>, from: int, k: int)
    requires
        0 <= from <= k <= all.len(),
        forall|j: int| 0 <= j < k ==> !"LANG="@.is_prefix_of(#[trigger] all[j]),
    ensures
        lang_setting(all, from) == lang_setting(all, k),
    decreases k - from,
{
    if from < k {
        assert(!"LANG="@.is_prefix_of(all[from]));
        lemma_first_setting(all, from + 1, k);
    }
}

/// Lines hold no line feeds.
pub proof fn lemma_lines_are_lines(s: Seq<char>)
    ensures
        forall|i: int| 0 <= i < lines(s).len() ==> is_one_line(#[trigger] lines(s)[i]),
    decreases s.len(),
{
    if s.len() > 0 {
        let n = first_of(s, '\n') as int;
        law_first_of_is_the_first(s, '\n');
        if n < s.len() {
            lemma_lines_are_lines(s.skip(n + 1));
            let head = without_return(s.take(n));
            assert(is_one_line(head)) by {
                assert forall|i: int| 0 <= i < head.len() implies head[i] != '\n' by {
                    assert(head[i] == s[i]);
                }
            }
            assert forall|i: int| 0 <= i < lines(s).len() implies is_one_line(
                #[trigger] lines(s)[i],
            ) by {
                if i > 0 {
                    assert(lines(s)[i] == lines(s.skip(n + 1))[i - 1]);
                } else {
                    assert(lines(s)[0] == head);
                }
            }
        } else {
            assert(is_one_line(s));
            assert(lines(s) =~= seq![s]);
        }
    }
}

/// Lines that are joined by line feeds come apart again as the same lines, where none is
/// empty or ends with a carriage return.
pub proof fn law_joined_lines_come_apart(parts: Seq<Seq<char>>)
    requires
        forall|i: int|
            0 <= i < parts.len() ==> (#[trigger] parts[i]).len() > 0 && is_one_line(parts[i])
                && parts[i].last() != '\r',
    ensures
        lines(joined(parts, "\n"@)) == parts,
    decreases parts.len(),
{
    if parts.len() == 0 {
        assert(lines(Seq::empty()) =~= parts);
    } else {
        let first = parts[0];
        let more = parts.skip(1);
        assert(parts =~= seq![first] + more);
        law_joining_separates(first, more, "\n"@);
        if more.len() == 0 {
            assert(parts =~= seq![first]);
            law_lines_come_apart(first, first);
        } else {
            assert forall|i: int| 0 <= i < more.len() implies (#[trigger] more[i]).len() > 0
                && is_one_line(more[i]) && more[i].last() != '\r' by {
                assert(parts[i + 1] == more[i]);
            }
            law_joined_lines_come_apart(more);
            law_lines_come_apart(first, joined(more, "\n"@));
        }
    }
}

/// Every key of the file is suggested, whole and in its order, one to a line: the lines of
/// what is suggested are the lines of the file without the white space around them, but for
/// those that are blank and those that start with `#`.
pub proof fn law_every_key_is_suggested(text: Seq<char>) -> (at: Seq<int>)
    ensures
        are_positions(at, lines(text).len()),
        at.len() == lines(keys_in(text)).len(),
        forall|k: int|
            0 <= k < at.len() ==> lines(keys_in(text))[k] == trimmed(lines(text)[#[trigger] at[k]]),
        forall|i: int|
            0 <= i < lines(text).len() ==> (#[trigger] at.contains(i) <==> trimmed(
                lines(text)[i],
            ).len() > 0 && trimmed(lines(text)[i])[0] != '#'),
        keys_in(text) == joined(lines(keys_in(text)), "\n"@),
{
    let all = lines(text);
    let pick = |l: Seq<char>| key_of_line(l);
    let at = lemma_picked(all, pick);
    let keys = all.filter_map(pick);
    assert forall|k: int| 0 <= k < keys.len() implies (#[trigger] keys[k]).len() > 0
        && is_one_line(keys[k]) && keys[k].last() != '\r' by {
        let line = all[at[k]];
        assert(pick(line) == Some(keys[k]));
        lemma_trimmed_end(line);
        lemma_lines_are_lines(text);
        let parts = law_trimming_takes_nothing_else(line, CharClass::Whitespace);
        assert forall|i: int| 0 <= i < keys[k].len() implies keys[k][i] != '\n' by {
            assert(keys[k][i] == line[parts.0.len() + i]);
        }
    }
    law_joined_lines_come_apart(keys);
    assert forall|k: int| 0 <= k < at.len() implies lines(keys_in(text))[k] == trimmed(
        lines(text)[#[trigger] at[k]],
    ) by {
        assert(pick(all[at[k]]) == Some(keys[k]));
    }
    at
}

} // verus!
