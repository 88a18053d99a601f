//! Launcher helpers around discovered applications: the deep-link URL an
//! application is opened with, icon candidate paths, media types by file
//! extension, a human-readable fallback name, and data URLs for icon
//! bytes. Reading files and spawning the opener is the host's concern.

use vstd::prelude::*;
use crate::invocation::{lower_ascii, lower_char};

verus! {

/// A declared argument, as the launcher's catalogue shows it.
#[derive(Debug, PartialEq)]
pub struct ActionArgSpec {
    pub name: String,
    pub arg_type: Option<String>,
    pub required: Option<bool>,
}

/// A declared action, as the launcher's catalogue shows it.
#[derive(Debug, PartialEq)]
pub struct AppAction {
    pub name: String,
    pub title: Option<String>,
    pub args: Vec<ActionArgSpec>,
}

/// A discovered application, as the launcher's catalogue shows it.
#[derive(Debug, PartialEq)]
pub struct AppDescriptor {
    pub id: String,
    pub name: Option<String>,
    pub description: Option<String>,
    pub version: Option<String>,
    pub scheme: Option<String>,
    pub actions: Vec<AppAction>,
    pub path: Option<String>,
    pub icon: Option<String>,
}

/// The percent-encoding of a text, as `urlencoding::encode` produces it.
/// The byte-level rules take more than a few lines over characters, so
/// the result is only named here; an empty text stays empty.
pub uninterp spec fn url_encoded_of(s: Seq<char>) -> Seq<char>;

/// Relies on `urlencoding::encode`: the percent-encoded form of the
/// text, which depends on the characters alone; an empty text encodes to
/// an empty text.
#[verifier::external_body]
fn url_encode(s: &str) -> (r: String)
    ensures
        r@ == url_encoded_of(s@),
        s@.len() == 0 ==> r@.len() == 0,
{
    urlencoding::encode(s).into_owned()
}

/// The deep-link URL for an application: its own scheme when its
/// descriptor declares one, the shared entry scheme otherwise, with the
/// arguments percent-encoded.
pub open spec fn deeplink_of(
    desc: Option<(Seq<char>, Option<Seq<char>>)>,
    app_name: Seq<char>,
    args: Option<Seq<char>>,
) -> Seq<char> {
    match desc {
        Option::Some((id, scheme)) => match scheme {
            Option::Some(sch) => match args {
                Option::Some(a) => sch + "://open?args="@ + url_encoded_of(a),
                Option::None => sch + "://open"@,
            },
            Option::None => match args {
                Option::Some(a) => "tlfsuite://open?app="@ + id + "&args="@ + url_encoded_of(a),
                Option::None => "tlfsuite://open?app="@ + id,
            },
        },
        Option::None => match args {
            Option::Some(a) => "tlfsuite://open?app="@ + app_name + "&args="@ + url_encoded_of(
                a,
            ),
            Option::None => "tlfsuite://open?app="@ + app_name,
        },
    }
}

/// The descriptor fields the deep link depends on.
pub open spec fn desc_link_view(d: Option<&AppDescriptor>) -> Option<
    (Seq<char>, Option<Seq<char>>),
> {
    match d {
        Option::Some(desc) => Option::Some((desc.id@, desc.scheme.deep_view())),
        Option::None => Option::None,
    }
}

/// Build the deep-link URL an application is opened with: its own scheme
/// when its descriptor declares one, else the shared entry scheme with
/// the application named, the arguments percent-encoded either way.
pub fn build_deeplink_url(
    descriptor: Option<&AppDescriptor>,
    app_name: &str,
    args: Option<&str>,
) -> (r: String)
    ensures
        r@ == deeplink_of(
            desc_link_view(descriptor),
            app_name@,
            match args {
                Option::Some(a) => Option::Some(a@),
                Option::None => Option::None,
            },
        ),
{
    match descriptor {
        Option::Some(desc) => {
            match &desc.scheme {
                Option::Some(sch) => {
                    let mut out = sch.clone();
                    match args {
                        Option::Some(a) => {
                            out.append("://open?args=");
                            let encoded = url_encode(a);
                            out.append(encoded.as_str());
                        },
                        Option::None => {
                            out.append("://open");
                        },
                    }
                    out
                },
                Option::None => {
                    let mut out = String::new();
                    out.append("tlfsuite://open?app=");
                    out.append(desc.id.as_str());
                    match args {
                        Option::Some(a) => {
                            out.append("&args=");
                            let encoded = url_encode(a);
                            out.append(encoded.as_str());
                        },
                        Option::None => {},
                    }
                    out
                },
            }
        },
        Option::None => {
            let mut out = String::new();
            out.append("tlfsuite://open?app=");
            out.append(app_name);
            match args {
                Option::Some(a) => {
                    out.append("&args=");
                    let encoded = url_encode(a);
                    out.append(encoded.as_str());
                },
                Option::None => {},
            }
            out
        },
    }
}

/// The media type of an icon file, by its lowered extension.
pub open spec fn mime_of(ext: Seq<char>) -> Seq<char> {
    let l = lower_ascii(ext);
    if l == "png"@ {
        "image/png"@
    } else if l == "jpg"@ || l == "jpeg"@ {
        "image/jpeg"@
    } else if l == "svg"@ {
        "image/svg+xml"@
    } else if l == "gif"@ {
        "image/gif"@
    } else if l == "ico"@ {
        "image/x-icon"@
    } else {
        "application/octet-stream"@
    }
}

/// The media type for a file extension, case-insensitively.
pub fn mime_from_ext(ext: &str) -> (r: String)
    ensures
        r@ == mime_of(ext@),
{
    let chars = crate::text::str_chars(ext);
    let mut lowered_chars: Vec<char> = Vec::new();
    let mut k: usize = 0;
    while k < chars.len()
        invariant
            0 <= k <= chars@.len(),
            lowered_chars@.len() == k,
            forall|q: int|
                0 <= q < k ==> lowered_chars@[q] == lower_char(#[trigger] chars@[q]),
        decreases chars@.len() - k,
    {
        let c = chars[k];
        let n = c as u32;
        if 65 <= n && n <= 90 {
            lowered_chars.push(((n + 32) as u8) as char);
        } else {
            lowered_chars.push(c);
        }
        k = k + 1;
    }
    proof {
        assert(lowered_chars@ =~= lower_ascii(ext@));
        reveal_strlit("png");
        reveal_strlit("jpg");
        reveal_strlit("jpeg");
        reveal_strlit("svg");
        reveal_strlit("gif");
        reveal_strlit("ico");
    }
    let png = crate::text::str_chars("png");
    let jpg = crate::text::str_chars("jpg");
    let jpeg = crate::text::str_chars("jpeg");
    let svg = crate::text::str_chars("svg");
    let gif = crate::text::str_chars("gif");
    let ico = crate::text::str_chars("ico");
    let mut out = String::new();
    if crate::text::chars_eq(&lowered_chars, &png) {
        out.append("image/png");
    } else if crate::text::chars_eq(&lowered_chars, &jpg) || crate::text::chars_eq(
        &lowered_chars,
        &jpeg,
    ) {
        out.append("image/jpeg");
    } else if crate::text::chars_eq(&lowered_chars, &svg) {
        out.append("image/svg+xml");
    } else if crate::text::chars_eq(&lowered_chars, &gif) {
        out.append("image/gif");
    } else if crate::text::chars_eq(&lowered_chars, &ico) {
        out.append("image/x-icon");
    } else {
        out.append("application/octet-stream");
    }
    out
}

/// The common icon candidate paths under a descriptor's directory and an
/// application's entry directory, in lookup order.
pub fn default_icon_candidates(desc_dir: &str, entry_dir: &str) -> (r: Vec<String>)
    ensures
        r.deep_view().len() == 6,
        r.deep_view()[0] == desc_dir@ + "/icon.png"@,
        r.deep_view()[1] == desc_dir@ + "/icons/icon.png"@,
        r.deep_view()[2] == desc_dir@ + "/src-tauri/icons/icon.png"@,
        r.deep_view()[3] == desc_dir@ + "/public/icon.png"@,
        r.deep_view()[4] == desc_dir@ + "/assets/icon.png"@,
        r.deep_view()[5] == entry_dir@ + "/Contents/Resources/icon.png"@,
{
    let mut out: Vec<String> = Vec::new();
    let mut a = desc_dir.to_owned();
    a.append("/icon.png");
    let mut b = desc_dir.to_owned();
    b.append("/icons/icon.png");
    let mut c = desc_dir.to_owned();
    c.append("/src-tauri/icons/icon.png");
    let mut d = desc_dir.to_owned();
    d.append("/public/icon.png");
    let mut e = desc_dir.to_owned();
    e.append("/assets/icon.png");
    let mut f = entry_dir.to_owned();
    f.append("/Contents/Resources/icon.png");
    out.push(a);
    out.push(b);
    out.push(c);
    out.push(d);
    out.push(e);
    out.push(f);
    out
}

/// A word separator of an identifier: space, underscore, hyphen or
/// point.
pub open spec fn is_sep(c: char) -> bool {
    c == ' ' || c == '_' || c == '-' || c == '.'
}

/// An ASCII letter raised, all other characters kept.
pub open spec fn upper_char(c: char) -> char {
    if 97 <= c as u32 && c as u32 <= 122 {
        ((c as u32 - 32) as u8) as char
    } else {
        c
    }
}

/// The title-cased text: separators collapse to single spaces between
/// words, each word starts with a raised letter and continues lowered.
/// `boundary` says the next word character starts a word; `emitted` says
/// some word character came before.
pub open spec fn title_cased(s: Seq<char>, boundary: bool, emitted: bool) -> Seq<char>
    decreases s,
{
    if s.len() == 0 {
        Seq::empty()
    } else if is_sep(s[0]) {
        title_cased(s.skip(1), true, emitted)
    } else {
        (if boundary && emitted {
            seq![' ']
        } else {
            Seq::empty()
        }) + seq![if boundary {
            upper_char(s[0])
        } else {
            lower_char(s[0])
        }] + title_cased(s.skip(1), false, true)
    }
}

/// The human-readable display name of an identifier.
pub open spec fn display_name_of(id: Seq<char>, dir_name: Seq<char>) -> Seq<char> {
    let titled = title_cased(id, true, false);
    if !crate::text::is_blank(id) && titled.len() > 0 {
        titled
    } else if dir_name.len() > 0 {
        dir_name
    } else {
        "App"@
    }
}

/// A human-readable display name: the identifier title-cased — words
/// split on underscores, hyphens, points and spaces, each capitalized —
/// or the entry directory's name when the identifier is blank, or a
/// fixed stand-in when both give nothing.
pub fn fallback_display_name(desc_id: &str, dir_name: &str) -> (r: String)
    ensures
        r@ == display_name_of(desc_id@, dir_name@),
{
    let chars = crate::text::str_chars(desc_id);
    let blank_id = crate::text::blank(&chars);
    let mut out: Vec<char> = Vec::new();
    let mut boundary = true;
    let mut emitted = false;
    let mut k: usize = 0;
    proof {
        assert(chars@.skip(0) =~= chars@);
    }
    while k < chars.len()
        invariant
            0 <= k <= chars@.len(),
            chars@ == desc_id@,
            title_cased(chars@, true, false) == out@ + title_cased(
                chars@.skip(k as int),
                boundary,
                emitted,
            ),
            emitted == (out@.len() > 0),
        decreases chars@.len() - k,
    {
        let c = chars[k];
        proof {
            assert(chars@.skip(k as int)[0] == chars@[k as int]);
            assert(chars@.skip(k as int).skip(1) =~= chars@.skip(k + 1));
        }
        if c == ' ' || c == '_' || c == '-' || c == '.' {
            boundary = true;
        } else {
            if boundary && emitted {
                out.push(' ');
            }
            let n = c as u32;
            if boundary {
                if 97 <= n && n <= 122 {
                    out.push(((n - 32) as u8) as char);
                } else {
                    out.push(c);
                }
            } else {
                if 65 <= n && n <= 90 {
                    out.push(((n + 32) as u8) as char);
                } else {
                    out.push(c);
                }
            }
            boundary = false;
            emitted = true;
        }
        k = k + 1;
    }
    proof {
        assert(chars@.skip(chars@.len() as int) =~= Seq::<char>::empty());
        assert(title_cased(chars@, true, false) =~= out@);
    }
    if !blank_id && out.len() > 0 {
        return crate::text::chars_string(&out);
    }
    if dir_name.unicode_len() > 0 {
        return dir_name.to_owned();
    }
    let mut fallback = String::new();
    fallback.append("App");
    fallback
}

/// The standard-alphabet base64 encoding of a byte string, as `base64`'s
/// standard engine produces it: four output characters for every three
/// input bytes, padded. The alphabet mapping takes more than a few
/// lines, so the result is only named here; its length is fixed by the
/// input's.
pub uninterp spec fn base64_std_of(bytes: Seq<u8>) -> Seq<char>;

/// Relies on `base64::engine::general_purpose::STANDARD` and its
/// `Engine::encode`: the padded standard base64 form of the bytes, four
/// characters per three-byte group, depending on the bytes alone.
#[verifier::external_body]
fn base64_encode(bytes: &Vec<u8>) -> (r: String)
    ensures
        r@ == base64_std_of(bytes@),
        r@.len() == 4 * ((bytes@.len() + 2) / 3),
{
    base64::Engine::encode(&base64::engine::general_purpose::STANDARD, bytes)
}

/// The data URL carrying the bytes under the media type.
pub fn data_url_from_bytes(mime: &str, bytes: &Vec<u8>) -> (r: String)
    ensures
        r@ == "data:"@ + mime@ + ";base64,"@ + base64_std_of(bytes@),
{
    let mut out = String::new();
    out.append("data:");
    out.append(mime);
    out.append(";base64,");
    let encoded = base64_encode(bytes);
    out.append(encoded.as_str());
    out
}

} // verus!
