//! The decisions of applying one ingredient: where each file goes, and what
//! is reported around its hook.
use vstd::prelude::*;
use crate::config::{DictionaryConfig, presets_view};
use crate::text::{chars_of, string_of};

verus! {

broadcast use vstd::std_specs::vec::group_vec_axioms;

/// Why an ingredient could not be applied.
#[derive(Debug, Clone, PartialEq, Eq)]
pub enum ApplyError {
    /// A target starts with `~` and the home directory is unknown.
    NoHome(String),
}

/// A target path with its leading `~` replaced by the home directory.
pub open spec fn expanded(target: Seq<char>, home: Seq<char>) -> Seq<char> {
    if target.len() > 0 && target[0] == '~' {
        home + target.drop_first()
    } else {
        target
    }
}

/// Expands a leading `~` in `target` to `home`; fails when it is needed and
/// there is no home directory.
pub fn expand_target(target: &str, home: Option<&str>) -> (r: Result<String, ApplyError>)
    ensures
        match r {
            Ok(p) => (target@.len() > 0 && target@[0] == '~') ==> home is Some && p@ == expanded(
                target@,
                home->Some_0@,
            ),
            Err(e) => target@.len() > 0 && target@[0] == '~' && home is None && e is NoHome
                && e->NoHome_0@ == target@,
        },
        r matches Ok(p) ==> !(target@.len() > 0 && target@[0] == '~') ==> p@ == target@,
{
    let cs = chars_of(target);
    if cs.len() > 0 && cs[0] == '~' {
        match home {
            Some(h) => {
                let mut out = chars_of(h);
                let ghost hv = out@;
                let mut i: usize = 1;
                while i < cs.len()
                    invariant
                        1 <= i <= cs@.len(),
                        out@ == hv + cs@.subrange(1, i as int),
                    decreases cs.len() - i,
                {
                    out.push(cs[i]);
                    proof {
                        assert(out@ =~= hv + cs@.subrange(1, i + 1));
                    }
                    i += 1;
                }
                proof {
                    assert(cs@.subrange(1, cs@.len() as int) =~= cs@.drop_first());
                }
                Ok(string_of(&out))
            },
            None => Err(ApplyError::NoHome(target.to_owned())),
        }
    } else {
        Ok(target.to_owned())
    }
}

/// A notification: level, scope and message.
#[derive(Debug, Clone, PartialEq, Eq)]
pub struct Notice {
    pub level: String,
    pub scope: String,
    pub msg: String,
}

pub open spec fn notice_view(n: Notice) -> (Seq<char>, Seq<char>, Seq<char>) {
    (n.level@, n.scope@, n.msg@)
}

/// The notice of a preset, or of the given default when the dictionary has
/// no preset of that name; the scope defaults to `HOOK`.
pub open spec fn hook_notice(
    presets: Map<Seq<char>, (Seq<char>, Option<Seq<char>>, Seq<char>)>,
    key: Seq<char>,
    level: Seq<char>,
    msg: Seq<char>,
) -> (Seq<char>, Seq<char>, Seq<char>) {
    if presets.contains_key(key) {
        let p = presets[key];
        (
            p.0,
            match p.1 {
                Some(s) => s,
                None => "HOOK"@,
            },
            p.2,
        )
    } else {
        (level, "HOOK"@, msg)
    }
}

/// The three notices around a hook: starting, succeeded, failed.
#[derive(Debug, Clone, PartialEq, Eq)]
pub struct HookNotices {
    pub run: Notice,
    pub ok: Notice,
    pub fail: Notice,
}

fn notice_for(dict: &DictionaryConfig, key: &str, level: &str, msg: &str) -> (r: Notice)
    ensures
        notice_view(r) == hook_notice(presets_view(dict.presets), key@, level@, msg@),
{
    match dict.presets.get(key) {
        Some(p) => {
            let scope = match &p.scope {
                Some(s) => s.clone(),
                None => "HOOK".to_owned(),
            };
            Notice { level: p.level.clone(), scope, msg: p.msg.clone() }
        },
        None => Notice { level: level.to_owned(), scope: "HOOK".to_owned(), msg: msg.to_owned() },
    }
}

impl HookNotices {
    /// The presets `hook_run`, `hook_ok` and `hook_fail`, each defaulting to
    /// a built-in notice.
    pub fn from_dictionary(dict: &DictionaryConfig) -> (r: HookNotices)
        ensures
            notice_view(r.run) == hook_notice(
                presets_view(dict.presets),
                "hook_run"@,
                "secondary"@,
                "running hooks"@,
            ),
            notice_view(r.ok) == hook_notice(
                presets_view(dict.presets),
                "hook_ok"@,
                "success"@,
                "hooks executed"@,
            ),
            notice_view(r.fail) == hook_notice(
                presets_view(dict.presets),
                "hook_fail"@,
                "error"@,
                "hooks failed"@,
            ),
    {
        HookNotices {
            run: notice_for(dict, "hook_run", "secondary", "running hooks"),
            ok: notice_for(dict, "hook_ok", "success", "hooks executed"),
            fail: notice_for(dict, "hook_fail", "error", "hooks failed"),
        }
    }
}

/// Position of the first newline in `s`, or -1.
pub open spec fn first_newline(s: Seq<char>) -> int
    decreases s.len(),
{
    if s.len() == 0 {
        -1
    } else if s[0] == '\n' {
        0
    } else {
        let r = first_newline(s.drop_first());
        if r < 0 {
            -1
        } else {
            r + 1
        }
    }
}

proof fn lemma_first_newline(s: Seq<char>, k: int)
    requires
        0 <= k <= s.len(),
        forall|m: int| 0 <= m < k ==> s[m] != '\n',
    ensures
        k < s.len() && s[k] == '\n' ==> first_newline(s) == k,
        k == s.len() ==> first_newline(s) == -1,
    decreases k,
{
    if k > 0 {
        lemma_first_newline(s.drop_first(), k - 1);
    }
}

/// A line ended by a newline, without the carriage return before it.
pub open spec fn chop_cr(l: Seq<char>) -> Seq<char> {
    if l.len() > 0 && l.last() == '\r' {
        l.drop_last()
    } else {
        l
    }
}

/// The lines of a text: split at each newline, a carriage return before a
/// newline dropped; a final newline ends the last line and starts none.
pub open spec fn lines_of(s: Seq<char>) -> Seq<Seq<char>>
    decreases s.len(),
{
    if s.len() == 0 {
        Seq::empty()
    } else {
        let j = first_newline(s);
        if 0 <= j < s.len() {
            seq![chop_cr(s.take(j))] + lines_of(s.skip(j + 1))
        } else {
            seq![s]
        }
    }
}

/// The lines of `text`.
pub fn split_lines(text: &str) -> (r: Vec<String>)
    ensures
        r@.map_values(|l: String| l@) == lines_of(text@),
{
    let cs = chars_of(text);
    let n = cs.len();
    let mut out: Vec<String> = Vec::new();
    let mut i: usize = 0;
    proof {
        assert(cs@.skip(0) =~= cs@);
        assert(out@.map_values(|l: String| l@) =~= Seq::<Seq<char>>::empty());
    }
    while i < n
        invariant
            n == cs@.len(),
            cs@ == text@,
            i <= n,
            out@.map_values(|l: String| l@) + lines_of(cs@.skip(i as int)) == lines_of(text@),
        decreases n - i,
    {
        let ghost rest = cs@.skip(i as int);
        let mut line: Vec<char> = Vec::new();
        let mut j: usize = i;
        while j < n && cs[j] != '\n'
            invariant
                n == cs@.len(),
                i <= j <= n,
                line@ == cs@.subrange(i as int, j as int),
                forall|m: int| i <= m < j ==> cs@[m] != '\n',
            decreases n - j,
        {
            line.push(cs[j]);
            proof {
                assert(line@ =~= cs@.subrange(i as int, j + 1));
            }
            j += 1;
        }
        proof {
            assert forall|m: int| 0 <= m < j - i implies rest[m] != '\n' by {
                assert(rest[m] == cs@[i + m]);
            }
            lemma_first_newline(rest, j - i);
            assert(rest.take(j - i) =~= line@);
        }
        let ghost before = out@.map_values(|l: String| l@);
        if j < n {
            if line.len() > 0 && line[line.len() - 1] == '\r' {
                line.pop();
            }
            out.push(string_of(&line));
            proof {
                assert(out@.map_values(|l: String| l@) =~= before.push(chop_cr(rest.take(j - i))));
                assert(rest.skip(j - i + 1) =~= cs@.skip(j + 1));
            }
            i = j + 1;
        } else {
            out.push(string_of(&line));
            proof {
                assert(rest =~= line@);
                assert(out@.map_values(|l: String| l@) =~= before.push(rest));
                assert(cs@.skip(j as int) =~= Seq::<char>::empty());
            }
            i = j;
        }
    }
    proof {
        assert(cs@.skip(i as int) =~= Seq::<char>::empty());
        assert(out@.map_values(|l: String| l@) + lines_of(cs@.skip(i as int)) =~= out@.map_values(
            |l: String| l@,
        ));
    }
    out
}

/// What is reported after a hook ran: each line of its standard output as
/// `info` and each line of its standard error as `error`, both in the scope
/// of the starting notice, then the success or failure notice.
pub open spec fn hook_report_spec(
    notices: HookNotices,
    stdout: Seq<char>,
    stderr: Seq<char>,
    success: bool,
) -> Seq<(Seq<char>, Seq<char>, Seq<char>)> {
    lines_of(stdout).map_values(|l: Seq<char>| ("info"@, notices.run.scope@, l)) + lines_of(
        stderr,
    ).map_values(|l: Seq<char>| ("error"@, notices.run.scope@, l)) + seq![
        if success {
            notice_view(notices.ok)
        } else {
            notice_view(notices.fail)
        },
    ]
}

fn line_notices(out: &mut Vec<Notice>, level: &str, scope: &String, text: &str)
    ensures
        final(out)@.map_values(|n: Notice| notice_view(n)) == old(out)@.map_values(
            |n: Notice| notice_view(n),
        ) + lines_of(text@).map_values(|l: Seq<char>| (level@, scope@, l)),
{
    let lines = split_lines(text);
    let ghost start = out@.map_values(|n: Notice| notice_view(n));
    let ghost lv = lines@.map_values(|l: String| l@);
    let mut i: usize = 0;
    while i < lines.len()
        invariant
            i <= lines@.len(),
            lv == lines@.map_values(|l: String| l@),
            lv == lines_of(text@),
            out@.map_values(|n: Notice| notice_view(n)) == start + lv.take(i as int).map_values(
                |l: Seq<char>| (level@, scope@, l),
            ),
        decreases lines.len() - i,
    {
        let ghost prev = out@;
        let n = Notice { level: level.to_owned(), scope: scope.clone(), msg: lines[i].clone() };
        out.push(n);
        proof {
            assert(out@ =~= prev.push(n));
            assert(out@.map_values(|n: Notice| notice_view(n)) =~= prev.map_values(
                |n: Notice| notice_view(n),
            ).push(notice_view(n)));
            assert(lv.take(i + 1) =~= lv.take(i as int).push(lines@[i as int]@));
            assert(out@.map_values(|n: Notice| notice_view(n)) =~= start + lv.take(i + 1).map_values(
                |l: Seq<char>| (level@, scope@, l),
            ));
        }
        i += 1;
    }
    proof {
        assert(lv.take(lines@.len() as int) =~= lv);
    }
}

/// The notices to emit once a hook has run, and whether the ingredient's
/// hook succeeded.
pub fn hook_report(notices: &HookNotices, stdout: &str, stderr: &str, success: bool) -> (r: (
    Vec<Notice>,
    bool,
))
    ensures
        r.0@.map_values(|n: Notice| notice_view(n)) == hook_report_spec(
            *notices,
            stdout@,
            stderr@,
            success,
        ),
        r.1 == success,
{
    let mut out: Vec<Notice> = Vec::new();
    proof {
        assert(out@.map_values(|n: Notice| notice_view(n)) =~= Seq::<
            (Seq<char>, Seq<char>, Seq<char>),
        >::empty());
    }
    line_notices(&mut out, "info", &notices.run.scope, stdout);
    line_notices(&mut out, "error", &notices.run.scope, stderr);
    let ghost before = out@.map_values(|n: Notice| notice_view(n));
    let last = if success {
        &notices.ok
    } else {
        &notices.fail
    };
    let ghost prev = out@;
    let n = Notice { level: last.level.clone(), scope: last.scope.clone(), msg: last.msg.clone() };
    out.push(n);
    proof {
        assert(out@ =~= prev.push(n));
        assert(out@.map_values(|n: Notice| notice_view(n)) =~= before.push(notice_view(n)));
    }
    proof {
        assert(out@.map_values(|n: Notice| notice_view(n)) =~= hook_report_spec(
            *notices,
            stdout@,
            stderr@,
            success,
        ));
    }
    (out, success)
}

} // verus!
