//! The tag list of a run's settings: tags from the settings file and tags
//! given for the run.
use vstd::prelude::*;

use crate::notes::{add_tag, holds_tag, strings_view};
use crate::text::{chars_of, string_from_chars, trim_chars, trimmed};
use crate::words::{normalize_words, normalized_words};

verus! {

/// The tags used when the settings name none.
pub open spec fn default_tags() -> Seq<Seq<char>> {
    seq!["generated"@]
}

/// `tags` with each extra tag, trimmed, added unless blank or present
/// already (ASCII case ignored).
pub open spec fn with_extra_tags(tags: Seq<Seq<char>>, extra: Seq<Seq<char>>) -> Seq<Seq<char>>
    decreases extra.len(),
{
    if extra.len() == 0 {
        tags
    } else {
        let before = with_extra_tags(tags, extra.drop_last());
        let t = trimmed(extra.last());
        if t.len() == 0 {
            before
        } else {
            add_tag(before, t)
        }
    }
}

/// The views of an optional list of strings.
pub open spec fn opt_strings_view(o: Option<Vec<String>>) -> Option<Seq<Seq<char>>> {
    match o {
        Some(v) => Some(strings_view(v@)),
        None => None,
    }
}

/// The tags of a run: the file's tags (or `generated` when it names none)
/// trimmed with blank ones dropped, `generated` if none is left, then the
/// run's extra tags.
pub open spec fn config_tags(file_tags: Option<Seq<Seq<char>>>, extra: Option<Seq<Seq<char>>>) -> Seq<
    Seq<char>,
> {
    let listed = normalized_words(
        match file_tags {
            Some(t) => t,
            None => default_tags(),
        },
    );
    let base = if listed.len() == 0 {
        default_tags()
    } else {
        listed
    };
    match extra {
        Some(e) => with_extra_tags(base, e),
        None => base,
    }
}

fn default_tag_list() -> (r: Vec<String>)
    ensures
        strings_view(r@) == default_tags(),
{
    let mut v: Vec<String> = Vec::new();
    v.push(String::from_str("generated"));
    assert(strings_view(v@) =~= default_tags());
    v
}

/// The tags of a run from the settings file's tags and the run's extra tags.
pub fn merge_config_tags(file_tags: Option<Vec<String>>, extra_tags: Option<Vec<String>>) -> (r: Vec<
    String,
>)
    ensures
        strings_view(r@) == config_tags(opt_strings_view(file_tags), opt_strings_view(extra_tags)),
{
    let ghost extra_view = opt_strings_view(extra_tags);
    let listed = match file_tags {
        Some(t) => normalize_words(t),
        None => normalize_words(default_tag_list()),
    };
    let mut tags = if listed.len() == 0 {
        default_tag_list()
    } else {
        listed
    };
    match extra_tags {
        Some(extra) => {
            let ghost base = strings_view(tags@);
            let ghost ev = strings_view(extra@);
            let mut k: usize = 0;
            assert(ev.take(0) =~= Seq::<Seq<char>>::empty());
            while k < extra.len()
                invariant
                    k <= extra@.len(),
                    ev == strings_view(extra@),
                    strings_view(tags@) == with_extra_tags(base, ev.take(k as int)),
                decreases extra.len() - k,
            {
                let ghost prefix = ev.take(k + 1);
                assert(prefix.drop_last() =~= ev.take(k as int));
                assert(prefix.last() == extra@[k as int]@);
                let chars = chars_of(extra[k].as_str());
                let t = trim_chars(chars.as_slice());
                if t.len() > 0 {
                    let cleaned = string_from_chars(t.as_slice());
                    if !holds_tag(&tags, cleaned.as_str()) {
                        let ghost before = strings_view(tags@);
                        tags.push(cleaned);
                        assert(strings_view(tags@) =~= before.push(t@));
                    }
                }
                k = k + 1;
            }
            assert(ev.take(k as int) =~= ev);
        },
        None => {},
    }
    tags
}

/// The first setting given, in order of precedence: the run's override,
/// the settings file, the environment; else `default`.
pub fn resolve_setting(
    override_value: Option<String>,
    file_value: Option<String>,
    env_value: Option<String>,
    default: &str,
) -> (r: String)
    ensures
        r@ == match override_value {
            Some(v) => v@,
            None => match file_value {
                Some(v) => v@,
                None => match env_value {
                    Some(v) => v@,
                    None => default@,
                },
            },
        },
{
    match override_value {
        Some(v) => v,
        None => match file_value {
            Some(v) => v,
            None => match env_value {
                Some(v) => v,
                None => String::from_str(default),
            },
        },
    }
}

/// Whether an API key is blank: nothing but white space.
pub fn api_key_is_blank(key: &str) -> (r: bool)
    ensures
        r == (trimmed(key@).len() == 0),
{
    let chars = chars_of(key);
    let t = trim_chars(chars.as_slice());
    t.len() == 0
}

} // verus!
