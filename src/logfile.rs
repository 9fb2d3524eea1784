//! File logging: the line written for a notification and the file it goes to.
use vstd::prelude::*;
use crate::config::Cookbook;
use crate::factory::{TagFactory, framed, transformed};
use crate::markup::{occurs_at, strip_tags, stripped};
use crate::processor::ApplyError;
use crate::text::{chars_of, string_of};

verus! {

broadcast use vstd::std_specs::vec::group_vec_axioms;

/// `s` with every occurrence of `from` replaced by `to`, scanning left to
/// right without overlap; an empty `from` occurs before each character and
/// at the end.
pub open spec fn replaced(s: Seq<char>, from: Seq<char>, to: Seq<char>) -> Seq<char>
    decreases s.len(),
{
    if from.len() == 0 {
        if s.len() == 0 {
            to
        } else {
            to + seq![s[0]] + replaced(s.drop_first(), from, to)
        }
    } else if s.len() < from.len() {
        s
    } else if s.take(from.len() as int) == from {
        to + replaced(s.skip(from.len() as int), from, to)
    } else {
        seq![s[0]] + replaced(s.drop_first(), from, to)
    }
}

/// Replaces every occurrence of `from` in `s` by `to`.
pub fn replace_all(s: &str, from: &str, to: &str) -> (r: String)
    ensures
        r@ == replaced(s@, from@, to@),
{
    let cs = chars_of(s);
    let pat = chars_of(from);
    let rep = chars_of(to);
    let n = cs.len();
    if pat.len() == 0 {
        return interleave(&cs, &rep, Ghost(from@));
    }
    let mut out: Vec<char> = Vec::new();
    let mut i: usize = 0;
    proof {
        assert(cs@.skip(0) =~= cs@);
    }
    while i < n
        invariant
            n == cs@.len(),
            cs@ == s@,
            pat@ == from@,
            rep@ == to@,
            pat@.len() > 0,
            i <= n,
            out@ + replaced(cs@.skip(i as int), from@, to@) == replaced(s@, from@, to@),
        decreases n - i,
    {
        let ghost rest = cs@.skip(i as int);
        let ghost before = out@;
        if occurs_at(&cs, i, &pat) {
            let mut k: usize = 0;
            while k < rep.len()
                invariant
                    k <= rep@.len(),
                    out@ == before + rep@.take(k as int),
                decreases rep.len() - k,
            {
                out.push(rep[k]);
                proof {
                    assert(out@ =~= before + rep@.take(k + 1));
                }
                k += 1;
            }
            proof {
                assert(rep@.take(rep@.len() as int) =~= rep@);
                assert(rest.skip(from@.len() as int) =~= cs@.skip(i + pat@.len()));
                assert(out@ + replaced(cs@.skip(i + pat@.len()), from@, to@) =~= before + replaced(
                    rest,
                    from@,
                    to@,
                ));
            }
            i = i + pat.len();
        } else {
            out.push(cs[i]);
            proof {
                assert(rest.drop_first() =~= cs@.skip(i + 1));
                assert(out@ + replaced(cs@.skip(i + 1), from@, to@) =~= before + replaced(
                    rest,
                    from@,
                    to@,
                ));
            }
            i = i + 1;
        }
    }
    proof {
        assert(cs@.skip(i as int) =~= Seq::<char>::empty());
        assert(out@ + replaced(cs@.skip(i as int), from@, to@) =~= out@);
    }
    string_of(&out)
}

fn push_all(out: &mut Vec<char>, xs: &Vec<char>)
    ensures
        final(out)@ == old(out)@ + xs@,
{
    let mut k: usize = 0;
    while k < xs.len()
        invariant
            k <= xs@.len(),
            out@ == old(out)@ + xs@.take(k as int),
        decreases xs.len() - k,
    {
        out.push(xs[k]);
        proof {
            assert(out@ =~= old(out)@ + xs@.take(k + 1));
        }
        k += 1;
    }
    proof {
        assert(xs@.take(xs@.len() as int) =~= xs@);
    }
}

/// `rep` before each character of `cs` and after the last.
fn interleave(cs: &Vec<char>, rep: &Vec<char>, from: Ghost<Seq<char>>) -> (r: String)
    requires
        from@.len() == 0,
    ensures
        r@ == replaced(cs@, from@, rep@),
{
    let n = cs.len();
    let mut out: Vec<char> = Vec::new();
    let mut i: usize = 0;
    proof {
        assert(cs@.skip(0) =~= cs@);
    }
    while i < n
        invariant
            n == cs@.len(),
            i <= n,
            from@.len() == 0,
            out@ + replaced(cs@.skip(i as int), from@, rep@) == replaced(cs@, from@, rep@),
        decreases n - i,
    {
        let ghost before = out@;
        let ghost rest = cs@.skip(i as int);
        push_all(&mut out, rep);
        out.push(cs[i]);
        proof {
            assert(rest.drop_first() =~= cs@.skip(i + 1));
            assert(out@ =~= before + rep@ + seq![rest[0]]);
            assert(out@ + replaced(cs@.skip(i + 1), from@, rep@) =~= before + replaced(rest, from@, rep@));
        }
        i += 1;
    }
    proof {
        assert(cs@.skip(i as int) =~= Seq::<char>::empty());
    }
    push_all(&mut out, rep);
    string_of(&out)
}

/// The line written to the log file: the layout's file structure with its
/// `{timestamp}`, `{tag}`, `{msg}` and `{scope}` filled in, in that order;
/// the message loses its style tags.
pub open spec fn file_line_spec(
    structure: Seq<char>,
    timestamp: Seq<char>,
    tag: Seq<char>,
    msg: Seq<char>,
    scope: Seq<char>,
) -> Seq<char> {
    replaced(
        replaced(
            replaced(replaced(structure, "{timestamp}"@, timestamp), "{tag}"@, tag),
            "{msg}"@,
            stripped(msg),
        ),
        "{scope}"@,
        scope,
    )
}

/// The tag of a level, as `TagFactory::create_tag` makes it.
pub open spec fn tag_spec(config: Cookbook, level: Seq<char>) -> Seq<char> {
    framed(
        config.layout.tag,
        transformed(
            config.layout.tag.transform@,
            if config.layout.labels@.contains_key(level) {
                config.layout.labels@[level]@
            } else {
                level
            },
        ),
    )
}

/// The line to append to the log file for a notification, `timestamp`
/// being the current time in the layout's timestamp format.
pub fn file_line(config: &Cookbook, level: &str, scope: &str, msg: &str, timestamp: &str) -> (r:
    String)
    ensures
        r@ == file_line_spec(
            config.layout.structure.file@,
            timestamp@,
            tag_spec(*config, level@),
            msg@,
            scope@,
        ),
{
    proof {
        reveal_strlit("{timestamp}");
        reveal_strlit("{tag}");
        reveal_strlit("{msg}");
        reveal_strlit("{scope}");
    }
    let tag = TagFactory::create_tag(config, level);
    let clean = strip_tags(msg);
    let a = replace_all(config.layout.structure.file.as_str(), "{timestamp}", timestamp);
    let b = replace_all(a.as_str(), "{tag}", tag.as_str());
    let c = replace_all(b.as_str(), "{msg}", clean.as_str());
    replace_all(c.as_str(), "{scope}", scope)
}

/// Where a log file goes: its base directory, its path below it, and its
/// name.
pub struct LogTarget {
    pub base_dir: String,
    pub rel_path: String,
    pub filename: String,
}

/// The date parts that file paths are built from, as text.
pub struct LogDate {
    pub year: String,
    pub month: String,
    pub day: String,
}

/// The base directory: when it starts with `~`, every `~` stands for the
/// home directory.
pub open spec fn base_dir_spec(base: Seq<char>, home: Seq<char>) -> Seq<char> {
    if base.len() > 0 && base[0] == '~' {
        replaced(base, "~"@, home)
    } else {
        base
    }
}

/// The log file of a notification: the layout's path structure with
/// `{year}`, `{month}`, `{scope}` and `{app}` filled in, and its file name
/// structure with `{level}`, `{year}`, `{month}`, `{day}` and `{app}`; the
/// application name is `app_override` when given.
pub fn log_target(
    config: &Cookbook,
    level: &str,
    scope: &str,
    app_override: Option<&str>,
    date: &LogDate,
    home: Option<&str>,
) -> (r: Result<LogTarget, ApplyError>)
    ensures
        ({
            let l = config.layout.logging;
            let app = match app_override {
                Some(a) => a@,
                None => l.app_name@,
            };
            let tilde = l.base_dir@.len() > 0 && l.base_dir@[0] == '~';
            match r {
                Ok(t) => {
                    &&& tilde ==> home is Some && t.base_dir@ == base_dir_spec(l.base_dir@, home->Some_0@)
                    &&& !tilde ==> t.base_dir@ == l.base_dir@
                    &&& t.rel_path@ == replaced(
                        replaced(
                            replaced(replaced(l.path_structure@, "{year}"@, date.year@), "{month}"@, date.month@),
                            "{scope}"@,
                            scope@,
                        ),
                        "{app}"@,
                        app,
                    )
                    &&& t.filename@ == replaced(
                        replaced(
                            replaced(
                                replaced(
                                    replaced(l.filename_structure@, "{level}"@, level@),
                                    "{year}"@,
                                    date.year@,
                                ),
                                "{month}"@,
                                date.month@,
                            ),
                            "{day}"@,
                            date.day@,
                        ),
                        "{app}"@,
                        app,
                    )
                },
                Err(e) => tilde && home is None && e is NoHome,
            }
        }),
{
    proof {
        reveal_strlit("~");
        reveal_strlit("{year}");
        reveal_strlit("{month}");
        reveal_strlit("{day}");
        reveal_strlit("{scope}");
        reveal_strlit("{app}");
        reveal_strlit("{level}");
    }
    let l = &config.layout.logging;
    let app: &str = match app_override {
        Some(a) => a,
        None => l.app_name.as_str(),
    };
    let cs = chars_of(l.base_dir.as_str());
    let base_dir = if cs.len() > 0 && cs[0] == '~' {
        match home {
            Some(h) => replace_all(l.base_dir.as_str(), "~", h),
            None => return Err(ApplyError::NoHome(l.base_dir.clone())),
        }
    } else {
        l.base_dir.clone()
    };
    let with_year = replace_all(l.path_structure.as_str(), "{year}", date.year.as_str());
    let with_month = replace_all(with_year.as_str(), "{month}", date.month.as_str());
    let with_scope = replace_all(with_month.as_str(), "{scope}", scope);
    let rel_path = replace_all(with_scope.as_str(), "{app}", app);
    let named = replace_all(l.filename_structure.as_str(), "{level}", level);
    let named_year = replace_all(named.as_str(), "{year}", date.year.as_str());
    let named_month = replace_all(named_year.as_str(), "{month}", date.month.as_str());
    let named_day = replace_all(named_month.as_str(), "{day}", date.day.as_str());
    let filename = replace_all(named_day.as_str(), "{app}", app);
    Ok(LogTarget { base_dir, rel_path, filename })
}

} // verus!
