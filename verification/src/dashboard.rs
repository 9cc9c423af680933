//! Naming the dashboard file after its JSON report, and filling the page template.
use vstd::prelude::*;
use crate::text::{chars_of, push_chars, push_str, slice_chars, starts_with, string_from_chars};

verus! {

/// What `std::path::Path::file_name` gives for a path, as text.
pub uninterp spec fn path_file_name(p: Seq<char>) -> Option<Seq<char>>;

/// `std::path::Path::file_name` of a UTF-8 path: the result is `path_file_name`
/// of the path.
#[verifier::external_body]
pub(crate) fn file_name_of(path: &str) -> (r: Option<String>)
    ensures
        match r {
            Some(n) => path_file_name(path@) == Some(n@),
            None => path_file_name(path@) is None,
        },
{
    std::path::Path::new(path).file_name().and_then(|n| n.to_str()).map(|n| n.to_string())
}

/// The position of the last `.` in `s`.
pub open spec fn last_dot(s: Seq<char>) -> Option<int>
    decreases s.len(),
{
    if s.len() == 0 {
        None
    } else if s.last() == '.' {
        Some(s.len() - 1)
    } else {
        last_dot(s.drop_last())
    }
}

/// `Path::file_stem` of a file name: the whole name when it has no `.` or only a
/// leading one, otherwise the part before the last `.`.
pub open spec fn file_stem_text(name: Seq<char>) -> Seq<char> {
    match last_dot(name) {
        Some(i) => if i == 0 {
            name
        } else {
            name.take(i)
        },
        None => name,
    }
}

/// `PathBuf::join` with a relative or absolute file name (`/` as separator).
pub open spec fn join_path(dir: Seq<char>, name: Seq<char>) -> Seq<char> {
    if starts_with(name, "/"@) {
        name
    } else if dir.len() == 0 {
        name
    } else if dir.last() == '/' {
        dir + name
    } else {
        dir + seq!['/'] + name
    }
}

/// The dashboard file for a report whose file name is `file_name`: `<stem>.html`
/// in `out_dir`, provided the stem is not empty.
pub open spec fn dashboard_file(file_name: Option<Seq<char>>, out_dir: Seq<char>) -> Option<Seq<char>> {
    match file_name {
        None => None,
        Some(n) => if file_stem_text(n).len() == 0 {
            None
        } else {
            Some(join_path(out_dir, file_stem_text(n) + ".html"@))
        },
    }
}

fn last_dot_exec(s: &[char]) -> (r: Option<usize>)
    ensures
        match r {
            Some(i) => last_dot(s@) == Some(i as int) && i < s@.len(),
            None => last_dot(s@) is None,
        },
{
    let mut r: Option<usize> = None;
    let mut i: usize = 0;
    while i < s.len()
        invariant
            i <= s.len(),
            match r {
                Some(j) => last_dot(s@.take(i as int)) == Some(j as int) && j < i,
                None => last_dot(s@.take(i as int)) is None,
            },
        decreases s.len() - i,
    {
        proof {
            assert(s@.take(i + 1).drop_last() == s@.take(i as int));
        }
        if s[i] == '.' {
            r = Some(i);
        }
        i = i + 1;
    }
    assert(s@.take(i as int) == s@);
    r
}

/// The dashboard file for a report whose file name is `file_name`.
pub fn dashboard_file_for(file_name: Option<&str>, out_dir: &str) -> (r: Option<String>)
    ensures
        match r {
            Some(p) => dashboard_file(
                match file_name {
                    Some(n) => Some(n@),
                    None => None,
                },
                out_dir@,
            ) == Some(p@),
            None => dashboard_file(
                match file_name {
                    Some(n) => Some(n@),
                    None => None,
                },
                out_dir@,
            ) is None,
        },
{
    let name = match file_name {
        Some(n) => chars_of(n),
        None => {
            return None;
        },
    };
    let stem = match last_dot_exec(&name) {
        Some(i) => {
            if i == 0 {
                slice_chars(&name, 0, name.len())
            } else {
                slice_chars(&name, 0, i)
            }
        },
        None => slice_chars(&name, 0, name.len()),
    };
    assert(name@.subrange(0, name@.len() as int) == name@);
    assert(stem@ == file_stem_text(name@));
    if stem.len() == 0 {
        return None;
    }
    let mut file: Vec<char> = Vec::new();
    push_chars(&mut file, &stem);
    push_str(&mut file, ".html");
    assert(file@ == stem@ + ".html"@);
    let dir = chars_of(out_dir);
    let mut out: Vec<char> = Vec::new();
    proof {
        reveal_strlit("/");
        assert("/"@ == seq!['/']);
        assert(file@.len() > 0);
        assert(starts_with(file@, "/"@) <==> file@[0] == '/') by {
            if file@[0] == '/' {
                assert(file@.take(1) == seq!['/']);
            }
            if starts_with(file@, "/"@) {
                assert(file@.take(1)[0] == file@[0]);
            }
        }
    }
    if file[0] == '/' {
        push_chars(&mut out, &file);
    } else if dir.len() == 0 {
        push_chars(&mut out, &file);
    } else if dir[dir.len() - 1] == '/' {
        push_chars(&mut out, &dir);
        push_chars(&mut out, &file);
    } else {
        push_chars(&mut out, &dir);
        out.push('/');
        push_chars(&mut out, &file);
    }
    assert(out@ == join_path(out_dir@, file@));
    Some(string_from_chars(&out))
}

/// Why no dashboard file can be named.
#[derive(Debug, PartialEq, Eq)]
pub enum DashboardError {
    /// The input path has no usable file stem.
    NoStem(String),
}

impl DashboardError {
    /// The text that the command line shows for this error.
    pub fn message(&self) -> (s: String)
        ensures
            match self {
                DashboardError::NoStem(p) => s@ == "cannot derive dashboard name from "@ + p@,
            },
    {
        match self {
            DashboardError::NoStem(p) => {
                let mut v: Vec<char> = Vec::new();
                push_str(&mut v, "cannot derive dashboard name from ");
                push_str(&mut v, p.as_str());
                string_from_chars(&v)
            },
        }
    }
}

/// The dashboard file for the JSON report `input`: its stem with `.html`, in `out_dir`.
pub fn dashboard_path(input: &str, out_dir: &str) -> (r: Result<String, DashboardError>)
    ensures
        match r {
            Ok(p) => dashboard_file(path_file_name(input@), out_dir@) == Some(p@),
            Err(DashboardError::NoStem(s)) => dashboard_file(path_file_name(input@), out_dir@) is None
                && s@ == input@,
        },
{
    let name = file_name_of(input);
    let found = match &name {
        Some(n) => dashboard_file_for(Some(n.as_str()), out_dir),
        None => dashboard_file_for(None, out_dir),
    };
    match found {
        Some(p) => Ok(p),
        None => Err(DashboardError::NoStem(String::from_str(input))),
    }
}

/// `s` with every occurrence of `pat` (left to right, not overlapping) replaced
/// by `rep`, as `str::replace` does for a non-empty pattern.
pub open spec fn replace_all(s: Seq<char>, pat: Seq<char>, rep: Seq<char>) -> Seq<char>
    decreases s.len(),
{
    if pat.len() == 0 || s.len() < pat.len() {
        s
    } else if s.take(pat.len() as int) == pat {
        rep + replace_all(s.skip(pat.len() as int), pat, rep)
    } else {
        seq![s[0]] + replace_all(s.drop_first(), pat, rep)
    }
}

fn replace_all_exec(s: &[char], pat: &str, rep: &[char]) -> (r: Vec<char>)
    requires
        pat@.len() > 0,
    ensures
        r@ == replace_all(s@, pat@, rep@),
{
    let p = chars_of(pat);
    let mut out: Vec<char> = Vec::new();
    let mut i: usize = 0;
    assert(s@.skip(0) == s@);
    while i < s.len()
        invariant
            i <= s.len(),
            p@ == pat@,
            p@.len() > 0,
            out@ + replace_all(s@.skip(i as int), p@, rep@) == replace_all(s@, p@, rep@),
        decreases s.len() - i,
    {
        let ghost rest = s@.skip(i as int);
        if p.len() <= s.len() - i && crate::text::occurs_at_exec(s, &p, i) {
            proof {
                assert(s@.subrange(i as int, i + p@.len()) == rest.take(p@.len() as int));
                assert(rest.skip(p@.len() as int) == s@.skip(i + p@.len()));
                assert(replace_all(rest, p@, rep@) == rep@ + replace_all(
                    s@.skip(i + p@.len()),
                    p@,
                    rep@,
                ));
            }
            push_chars(&mut out, rep);
            i = i + p.len();
        } else {
            proof {
                if p@.len() <= rest.len() {
                    assert(s@.subrange(i as int, i + p@.len()) == rest.take(p@.len() as int));
                    assert(replace_all(rest, p@, rep@) == seq![rest[0]] + replace_all(
                        rest.drop_first(),
                        p@,
                        rep@,
                    ));
                    assert(rest.drop_first() == s@.skip(i + 1));
                } else {
                    assert(replace_all(rest, p@, rep@) == rest);
                    if i + 1 < s.len() {
                        assert(rest.drop_first().len() < p@.len());
                        assert(replace_all(rest.drop_first(), p@, rep@) == rest.drop_first());
                    }
                    assert(rest == seq![rest[0]] + rest.drop_first());
                    assert(rest.drop_first() == s@.skip(i + 1));
                }
            }
            out.push(s[i]);
            i = i + 1;
        }
    }
    assert(s@.skip(i as int).len() == 0);
    out
}

/// Fills the dashboard template: the report JSON in place of `__REPORT_JSON__`,
/// then the logo in place of `__CRYPTON_LOGO_SVG__`.
pub fn render_report_page(template: &str, report_json: &str, logo_svg: &str) -> (page: String)
    ensures
        page@ == replace_all(
            replace_all(template@, "__REPORT_JSON__"@, report_json@),
            "__CRYPTON_LOGO_SVG__"@,
            logo_svg@,
        ),
{
    proof {
        reveal_strlit("__REPORT_JSON__");
        reveal_strlit("__CRYPTON_LOGO_SVG__");
    }
    let t = chars_of(template);
    let json = chars_of(report_json);
    let logo = chars_of(logo_svg);
    let first = replace_all_exec(&t, "__REPORT_JSON__", &json);
    let second = replace_all_exec(&first, "__CRYPTON_LOGO_SVG__", &logo);
    string_from_chars(&second)
}

} // verus!
