//! What the program is started with.

use crate::args::{configured_preset, configured_theme, decided, flag_read, no_flags, FlagsText, Halt, Start, Want};
use crate::keyconfig::KeyConfig;
use crate::text::{starts_with, texts};
use crate::theme::theme_named;
use vstd::prelude::*;

verus! {

proof fn lemma_flag_names()
    ensures
        "--keys"@ != "--theme"@,
        "--keys"@ != "--rules"@,
        "--keys"@ != "--all"@,
        "--keys"@ != "--only-comments"@,
        "--keys"@ != "--init-config"@,
        "--keys"@ != "--force"@,
        "--keys"@ != "-h"@,
        "--keys"@ != "--help"@,
        "--keys"@ != "help"@,
        "--keys"@ != "-V"@,
        "--keys"@ != "--version"@,
        "--keys"@ != "version"@,
        "--theme"@ != "--rules"@,
        "--theme"@ != "--all"@,
        "--theme"@ != "--only-comments"@,
        "--theme"@ != "--init-config"@,
        "--theme"@ != "--force"@,
        "--theme"@ != "-h"@,
        "--theme"@ != "--help"@,
        "--theme"@ != "help"@,
        "--theme"@ != "-V"@,
        "--theme"@ != "--version"@,
        "--theme"@ != "version"@,
        "--rules"@ != "--all"@,
        "--rules"@ != "--only-comments"@,
        "--rules"@ != "--init-config"@,
        "--rules"@ != "--force"@,
        "--rules"@ != "-h"@,
        "--rules"@ != "--help"@,
        "--rules"@ != "help"@,
        "--rules"@ != "-V"@,
        "--rules"@ != "--version"@,
        "--rules"@ != "version"@,
        "--all"@ != "--only-comments"@,
        "--all"@ != "--init-config"@,
        "--all"@ != "--force"@,
        "--all"@ != "-h"@,
        "--all"@ != "--help"@,
        "--all"@ != "help"@,
        "--all"@ != "-V"@,
        "--all"@ != "--version"@,
        "--all"@ != "version"@,
        "--only-comments"@ != "--init-config"@,
        "--only-comments"@ != "--force"@,
        "--only-comments"@ != "-h"@,
        "--only-comments"@ != "--help"@,
        "--only-comments"@ != "help"@,
        "--only-comments"@ != "-V"@,
        "--only-comments"@ != "--version"@,
        "--only-comments"@ != "version"@,
        "--init-config"@ != "--force"@,
        "--init-config"@ != "-h"@,
        "--init-config"@ != "--help"@,
        "--init-config"@ != "help"@,
        "--init-config"@ != "-V"@,
        "--init-config"@ != "--version"@,
        "--init-config"@ != "version"@,
        "--force"@ != "-h"@,
        "--force"@ != "--help"@,
        "--force"@ != "help"@,
        "--force"@ != "-V"@,
        "--force"@ != "--version"@,
        "--force"@ != "version"@,
        "-h"@ != "--help"@,
        "-h"@ != "help"@,
        "-h"@ != "-V"@,
        "-h"@ != "--version"@,
        "-h"@ != "version"@,
        "--help"@ != "help"@,
        "--help"@ != "-V"@,
        "--help"@ != "--version"@,
        "--help"@ != "version"@,
        "help"@ != "-V"@,
        "help"@ != "--version"@,
        "help"@ != "version"@,
        "-V"@ != "--version"@,
        "-V"@ != "version"@,
        "--version"@ != "version"@,
        !starts_with("--keys"@, "--keys="@),
        !starts_with("--keys"@, "--theme="@),
        !starts_with("--keys"@, "--rules="@),
        !starts_with("--theme"@, "--keys="@),
        !starts_with("--theme"@, "--theme="@),
        !starts_with("--theme"@, "--rules="@),
        !starts_with("--rules"@, "--keys="@),
        !starts_with("--rules"@, "--theme="@),
        !starts_with("--rules"@, "--rules="@),
        !starts_with("--all"@, "--keys="@),
        !starts_with("--all"@, "--theme="@),
        !starts_with("--all"@, "--rules="@),
        !starts_with("--only-comments"@, "--keys="@),
        !starts_with("--only-comments"@, "--theme="@),
        !starts_with("--only-comments"@, "--rules="@),
        !starts_with("--init-config"@, "--keys="@),
        !starts_with("--init-config"@, "--theme="@),
        !starts_with("--init-config"@, "--rules="@),
        !starts_with("--force"@, "--keys="@),
        !starts_with("--force"@, "--theme="@),
        !starts_with("--force"@, "--rules="@),
        !starts_with("-h"@, "--keys="@),
        !starts_with("-h"@, "--theme="@),
        !starts_with("-h"@, "--rules="@),
        !starts_with("--help"@, "--keys="@),
        !starts_with("--help"@, "--theme="@),
        !starts_with("--help"@, "--rules="@),
        !starts_with("help"@, "--keys="@),
        !starts_with("help"@, "--theme="@),
        !starts_with("help"@, "--rules="@),
        !starts_with("-V"@, "--keys="@),
        !starts_with("-V"@, "--theme="@),
        !starts_with("-V"@, "--rules="@),
        !starts_with("--version"@, "--keys="@),
        !starts_with("--version"@, "--theme="@),
        !starts_with("--version"@, "--rules="@),
        !starts_with("version"@, "--keys="@),
        !starts_with("version"@, "--theme="@),
        !starts_with("version"@, "--rules="@),
        "--keys="@ != "--keys"@,
        "--keys="@ != "--theme"@,
        "--keys="@ != "--rules"@,
        "--keys="@ != "--all"@,
        "--keys="@ != "--only-comments"@,
        "--keys="@ != "--init-config"@,
        "--keys="@ != "--force"@,
        "--keys="@ != "-h"@,
        "--keys="@ != "--help"@,
        "--keys="@ != "help"@,
        "--keys="@ != "-V"@,
        "--keys="@ != "--version"@,
        "--keys="@ != "version"@,
        "--theme="@ != "--keys"@,
        "--theme="@ != "--theme"@,
        "--theme="@ != "--rules"@,
        "--theme="@ != "--all"@,
        "--theme="@ != "--only-comments"@,
        "--theme="@ != "--init-config"@,
        "--theme="@ != "--force"@,
        "--theme="@ != "-h"@,
        "--theme="@ != "--help"@,
        "--theme="@ != "help"@,
        "--theme="@ != "-V"@,
        "--theme="@ != "--version"@,
        "--theme="@ != "version"@,
        "--rules="@ != "--keys"@,
        "--rules="@ != "--theme"@,
        "--rules="@ != "--rules"@,
        "--rules="@ != "--all"@,
        "--rules="@ != "--only-comments"@,
        "--rules="@ != "--init-config"@,
        "--rules="@ != "--force"@,
        "--rules="@ != "-h"@,
        "--rules="@ != "--help"@,
        "--rules="@ != "help"@,
        "--rules="@ != "-V"@,
        "--rules="@ != "--version"@,
        "--rules="@ != "version"@,
        starts_with("--keys"@, "-"@),
        starts_with("--theme"@, "-"@),
        starts_with("--rules"@, "-"@),
        starts_with("--all"@, "-"@),
        starts_with("--only-comments"@, "-"@),
        starts_with("--init-config"@, "-"@),
        starts_with("--force"@, "-"@),
        starts_with("-h"@, "-"@),
        starts_with("--help"@, "-"@),
        !starts_with("help"@, "-"@),
        starts_with("-V"@, "-"@),
        starts_with("--version"@, "-"@),
        !starts_with("version"@, "-"@),
{
    reveal_strlit("--keys");
    reveal_strlit("--theme");
    reveal_strlit("--rules");
    reveal_strlit("--all");
    reveal_strlit("--only-comments");
    reveal_strlit("--init-config");
    reveal_strlit("--force");
    reveal_strlit("-h");
    reveal_strlit("--help");
    reveal_strlit("help");
    reveal_strlit("-V");
    reveal_strlit("--version");
    reveal_strlit("version");
    reveal_strlit("--keys=");
    reveal_strlit("--theme=");
    reveal_strlit("--rules=");
    reveal_strlit("-");
    assert("--keys"@.len() != "--theme"@.len());
    assert("--keys"@.len() != "--rules"@.len());
    assert("--keys"@.len() != "--all"@.len());
    assert("--keys"@.len() != "--only-comments"@.len());
    assert("--keys"@.len() != "--init-config"@.len());
    assert("--keys"@.len() != "--force"@.len());
    assert("--keys"@.len() != "-h"@.len());
    assert("--keys"@[2] != "--help"@[2]);
    assert("--keys"@.len() != "help"@.len());
    assert("--keys"@.len() != "-V"@.len());
    assert("--keys"@.len() != "--version"@.len());
    assert("--keys"@.len() != "version"@.len());
    assert("--theme"@[2] != "--rules"@[2]);
    assert("--theme"@.len() != "--all"@.len());
    assert("--theme"@.len() != "--only-comments"@.len());
    assert("--theme"@.len() != "--init-config"@.len());
    assert("--theme"@[2] != "--force"@[2]);
    assert("--theme"@.len() != "-h"@.len());
    assert("--theme"@.len() != "--help"@.len());
    assert("--theme"@.len() != "help"@.len());
    assert("--theme"@.len() != "-V"@.len());
    assert("--theme"@.len() != "--version"@.len());
    assert("--theme"@[0] != "version"@[0]);
    assert("--rules"@.len() != "--all"@.len());
    assert("--rules"@.len() != "--only-comments"@.len());
    assert("--rules"@.len() != "--init-config"@.len());
    assert("--rules"@[2] != "--force"@[2]);
    assert("--rules"@.len() != "-h"@.len());
    assert("--rules"@.len() != "--help"@.len());
    assert("--rules"@.len() != "help"@.len());
    assert("--rules"@.len() != "-V"@.len());
    assert("--rules"@.len() != "--version"@.len());
    assert("--rules"@[0] != "version"@[0]);
    assert("--all"@.len() != "--only-comments"@.len());
    assert("--all"@.len() != "--init-config"@.len());
    assert("--all"@.len() != "--force"@.len());
    assert("--all"@.len() != "-h"@.len());
    assert("--all"@.len() != "--help"@.len());
    assert("--all"@.len() != "help"@.len());
    assert("--all"@.len() != "-V"@.len());
    assert("--all"@.len() != "--version"@.len());
    assert("--all"@.len() != "version"@.len());
    assert("--only-comments"@.len() != "--init-config"@.len());
    assert("--only-comments"@.len() != "--force"@.len());
    assert("--only-comments"@.len() != "-h"@.len());
    assert("--only-comments"@.len() != "--help"@.len());
    assert("--only-comments"@.len() != "help"@.len());
    assert("--only-comments"@.len() != "-V"@.len());
    assert("--only-comments"@.len() != "--version"@.len());
    assert("--only-comments"@.len() != "version"@.len());
    assert("--init-config"@.len() != "--force"@.len());
    assert("--init-config"@.len() != "-h"@.len());
    assert("--init-config"@.len() != "--help"@.len());
    assert("--init-config"@.len() != "help"@.len());
    assert("--init-config"@.len() != "-V"@.len());
    assert("--init-config"@.len() != "--version"@.len());
    assert("--init-config"@.len() != "version"@.len());
    assert("--force"@.len() != "-h"@.len());
    assert("--force"@.len() != "--help"@.len());
    assert("--force"@.len() != "help"@.len());
    assert("--force"@.len() != "-V"@.len());
    assert("--force"@.len() != "--version"@.len());
    assert("--force"@[0] != "version"@[0]);
    assert("-h"@.len() != "--help"@.len());
    assert("-h"@.len() != "help"@.len());
    assert("-h"@[1] != "-V"@[1]);
    assert("-h"@.len() != "--version"@.len());
    assert("-h"@.len() != "version"@.len());
    assert("--help"@.len() != "help"@.len());
    assert("--help"@.len() != "-V"@.len());
    assert("--help"@.len() != "--version"@.len());
    assert("--help"@.len() != "version"@.len());
    assert("help"@.len() != "-V"@.len());
    assert("help"@.len() != "--version"@.len());
    assert("help"@.len() != "version"@.len());
    assert("-V"@.len() != "--version"@.len());
    assert("-V"@.len() != "version"@.len());
    assert("--version"@.len() != "version"@.len());
    assert("--keys="@.len() != "--keys"@.len());
    assert("--keys="@[2] != "--theme"@[2]);
    assert("--keys="@[2] != "--rules"@[2]);
    assert("--keys="@.len() != "--all"@.len());
    assert("--keys="@.len() != "--only-comments"@.len());
    assert("--keys="@.len() != "--init-config"@.len());
    assert("--keys="@[2] != "--force"@[2]);
    assert("--keys="@.len() != "-h"@.len());
    assert("--keys="@.len() != "--help"@.len());
    assert("--keys="@.len() != "help"@.len());
    assert("--keys="@.len() != "-V"@.len());
    assert("--keys="@.len() != "--version"@.len());
    assert("--keys="@[0] != "version"@[0]);
    assert("--theme="@.len() != "--keys"@.len());
    assert("--theme="@.len() != "--theme"@.len());
    assert("--theme="@.len() != "--rules"@.len());
    assert("--theme="@.len() != "--all"@.len());
    assert("--theme="@.len() != "--only-comments"@.len());
    assert("--theme="@.len() != "--init-config"@.len());
    assert("--theme="@.len() != "--force"@.len());
    assert("--theme="@.len() != "-h"@.len());
    assert("--theme="@.len() != "--help"@.len());
    assert("--theme="@.len() != "help"@.len());
    assert("--theme="@.len() != "-V"@.len());
    assert("--theme="@.len() != "--version"@.len());
    assert("--theme="@.len() != "version"@.len());
    assert("--rules="@.len() != "--keys"@.len());
    assert("--rules="@.len() != "--theme"@.len());
    assert("--rules="@.len() != "--rules"@.len());
    assert("--rules="@.len() != "--all"@.len());
    assert("--rules="@.len() != "--only-comments"@.len());
    assert("--rules="@.len() != "--init-config"@.len());
    assert("--rules="@.len() != "--force"@.len());
    assert("--rules="@.len() != "-h"@.len());
    assert("--rules="@.len() != "--help"@.len());
    assert("--rules="@.len() != "help"@.len());
    assert("--rules="@.len() != "-V"@.len());
    assert("--rules="@.len() != "--version"@.len());
    assert("--rules="@.len() != "version"@.len());
    assert("--keys"@.len() < "--keys="@.len());
    assert("--keys"@.len() < "--theme="@.len());
    assert("--keys"@.len() < "--rules="@.len());
    assert("--theme"@.subrange(0, 7)[2] != "--keys="@[2]);
    assert("--theme"@.len() < "--theme="@.len());
    assert("--theme"@.len() < "--rules="@.len());
    assert("--rules"@.subrange(0, 7)[2] != "--keys="@[2]);
    assert("--rules"@.len() < "--theme="@.len());
    assert("--rules"@.len() < "--rules="@.len());
    assert("--all"@.len() < "--keys="@.len());
    assert("--all"@.len() < "--theme="@.len());
    assert("--all"@.len() < "--rules="@.len());
    assert("--only-comments"@.subrange(0, 7)[2] != "--keys="@[2]);
    assert("--only-comments"@.subrange(0, 8)[2] != "--theme="@[2]);
    assert("--only-comments"@.subrange(0, 8)[2] != "--rules="@[2]);
    assert("--init-config"@.subrange(0, 7)[2] != "--keys="@[2]);
    assert("--init-config"@.subrange(0, 8)[2] != "--theme="@[2]);
    assert("--init-config"@.subrange(0, 8)[2] != "--rules="@[2]);
    assert("--force"@.subrange(0, 7)[2] != "--keys="@[2]);
    assert("--force"@.len() < "--theme="@.len());
    assert("--force"@.len() < "--rules="@.len());
    assert("-h"@.len() < "--keys="@.len());
    assert("-h"@.len() < "--theme="@.len());
    assert("-h"@.len() < "--rules="@.len());
    assert("--help"@.len() < "--keys="@.len());
    assert("--help"@.len() < "--theme="@.len());
    assert("--help"@.len() < "--rules="@.len());
    assert("help"@.len() < "--keys="@.len());
    assert("help"@.len() < "--theme="@.len());
    assert("help"@.len() < "--rules="@.len());
    assert("-V"@.len() < "--keys="@.len());
    assert("-V"@.len() < "--theme="@.len());
    assert("-V"@.len() < "--rules="@.len());
    assert("--version"@.subrange(0, 7)[2] != "--keys="@[2]);
    assert("--version"@.subrange(0, 8)[2] != "--theme="@[2]);
    assert("--version"@.subrange(0, 8)[2] != "--rules="@[2]);
    assert("version"@.subrange(0, 7)[0] != "--keys="@[0]);
    assert("version"@.len() < "--theme="@.len());
    assert("version"@.len() < "--rules="@.len());
    assert("--keys"@.subrange(0, 1) =~= "-"@);
    assert("--theme"@.subrange(0, 1) =~= "-"@);
    assert("--rules"@.subrange(0, 1) =~= "-"@);
    assert("--all"@.subrange(0, 1) =~= "-"@);
    assert("--only-comments"@.subrange(0, 1) =~= "-"@);
    assert("--init-config"@.subrange(0, 1) =~= "-"@);
    assert("--force"@.subrange(0, 1) =~= "-"@);
    assert("-h"@.subrange(0, 1) =~= "-"@);
    assert("--help"@.subrange(0, 1) =~= "-"@);
    assert("help"@.subrange(0, 1)[0] != "-"@[0]);
    assert("-V"@.subrange(0, 1) =~= "-"@);
    assert("--version"@.subrange(0, 1) =~= "-"@);
    assert("version"@.subrange(0, 1)[0] != "-"@[0]);
}

/// A flag turns on what it names and nothing else; one that takes a value waits for
/// it, and takes the next argument whatever it is.
pub proof fn law_a_flag_does_what_it_names(f: FlagsText, value: Seq<char>)
    requires
        f.want == Want::Nothing,
    ensures
        flag_read(f, "--all"@) == Ok::<FlagsText, Halt>(FlagsText { skip_generated: false, ..f }),
        flag_read(f, "--only-comments"@) == Ok::<FlagsText, Halt>(FlagsText { only_comments: true, ..f }),
        flag_read(f, "--init-config"@) == Ok::<FlagsText, Halt>(FlagsText { init: true, ..f }),
        flag_read(f, "--force"@) == Ok::<FlagsText, Halt>(FlagsText { force: true, ..f }),
        flag_read(f, "--help"@) == Err::<FlagsText, Halt>(Halt::Help),
        flag_read(f, "-h"@) == Err::<FlagsText, Halt>(Halt::Help),
        flag_read(f, "help"@) == Err::<FlagsText, Halt>(Halt::Help),
        flag_read(f, "--version"@) == Err::<FlagsText, Halt>(Halt::Version),
        flag_read(f, "-V"@) == Err::<FlagsText, Halt>(Halt::Version),
        flag_read(f, "--keys"@) is Ok && flag_read(flag_read(f, "--keys"@)->Ok_0, value) == Ok::<FlagsText, Halt>(
            FlagsText { preset: value, preset_given: true, ..f },
        ),
        flag_read(f, "--theme"@) is Ok && flag_read(flag_read(f, "--theme"@)->Ok_0, value) == Ok::<FlagsText, Halt>(
            FlagsText { theme: value, theme_given: true, ..f },
        ),
        flag_read(f, "--rules"@) is Ok && flag_read(flag_read(f, "--rules"@)->Ok_0, value) == Ok::<FlagsText, Halt>(
            FlagsText { rules: f.rules.push(value), ..f },
        ),
{
    lemma_flag_names();
}

/// What is no flag is the revision the first time, and a path pattern from then
/// on; what looks like a flag and is none is refused.
pub proof fn law_the_first_argument_is_the_revision(f: FlagsText, a: Seq<char>)
    requires
        f.want == Want::Nothing,
        a.len() > 0,
        a[0] != '-',
        a != "help"@,
        a != "version"@,
    ensures
        f.rev is None ==> flag_read(f, a) == Ok::<FlagsText, Halt>(FlagsText { rev: Some(a), ..f }),
        f.rev is Some ==> flag_read(f, a) == Ok::<FlagsText, Halt>(FlagsText { globs: f.globs.push(a), ..f }),
{

    reveal_strlit("--keys");
    reveal_strlit("--theme");
    reveal_strlit("--rules");
    reveal_strlit("--all");
    reveal_strlit("--only-comments");
    reveal_strlit("--init-config");
    reveal_strlit("--force");
    reveal_strlit("-h");
    reveal_strlit("--help");
    reveal_strlit("help");
    reveal_strlit("-V");
    reveal_strlit("--version");
    reveal_strlit("version");
    reveal_strlit("--keys=");
    reveal_strlit("--theme=");
    reveal_strlit("--rules=");
    reveal_strlit("-");
    assert("--keys"@[0] == '-');
    assert("--theme"@[0] == '-');
    assert("--rules"@[0] == '-');
    assert("--all"@[0] == '-');
    assert("--only-comments"@[0] == '-');
    assert("--init-config"@[0] == '-');
    assert("--force"@[0] == '-');
    assert("-h"@[0] == '-');
    assert("--help"@[0] == '-');
    assert("-V"@[0] == '-');
    assert("--version"@[0] == '-');
    if starts_with(a, "--keys="@) {
        assert(a.subrange(0, 7)[0] == a[0]);
        assert("--keys="@[0] == '-');
    }
    if starts_with(a, "--theme="@) {
        assert(a.subrange(0, 8)[0] == a[0]);
        assert("--theme="@[0] == '-');
    }
    if starts_with(a, "--rules="@) {
        assert(a.subrange(0, 8)[0] == a[0]);
        assert("--rules="@[0] == '-');
    }
    if starts_with(a, "-"@) {
        assert(a.subrange(0, 1)[0] == a[0]);
        assert("-"@[0] == '-');
    }
}

/// A value may follow its flag behind an equals sign.
pub proof fn law_a_value_may_follow_an_equals_sign(f: FlagsText, value: Seq<char>)
    requires
        f.want == Want::Nothing,
    ensures
        flag_read(f, "--keys="@ + value) == Ok::<FlagsText, Halt>(FlagsText { preset: value, preset_given: true, ..f }),
        flag_read(f, "--theme="@ + value) == Ok::<FlagsText, Halt>(FlagsText { theme: value, theme_given: true, ..f }),
        flag_read(f, "--rules="@ + value) == Ok::<FlagsText, Halt>(FlagsText { rules: f.rules.push(value), ..f }),
{
    reveal_strlit("--keys");
    reveal_strlit("--theme");
    reveal_strlit("--rules");
    reveal_strlit("--keys=");
    reveal_strlit("--theme=");
    reveal_strlit("--rules=");
    let k = "--keys="@ + value;
    let t = "--theme="@ + value;
    let r = "--rules="@ + value;
    assert(k.subrange(0, 7) =~= "--keys="@);
    assert(k.skip(7) =~= value);
    assert(t.subrange(0, 8) =~= "--theme="@);
    assert(t.skip(8) =~= value);
    assert(r.subrange(0, 8) =~= "--rules="@);
    assert(r.skip(8) =~= value);
    assert(k[6] == '=' && k.len() >= 7);
    assert("--keys"@.len() == 6 && "--theme"@.len() == 7 && "--rules"@.len() == 7);
    assert(t[2] == 't' && r[2] == 'r');
    assert("--keys="@[2] == 'k' && "--theme="@[2] == 't' && "--rules="@[2] == 'r');
    assert(t.len() >= 8 && r.len() >= 8);
    if starts_with(t, "--keys="@) {
        assert(t.subrange(0, 7)[2] == t[2]);
    }
    if starts_with(r, "--keys="@) {
        assert(r.subrange(0, 7)[2] == r[2]);
    }
    if starts_with(r, "--theme="@) {
        assert(r.subrange(0, 8)[2] == r[2]);
    }
}

/// Without arguments the present commit is reviewed with the default keys and
/// theme, and without what is generated.
pub proof fn law_without_arguments_the_defaults_hold(keys_env: Option<Seq<char>>, theme_env: Option<Seq<char>>)
    ensures
        ({
            let f = no_flags(keys_env, theme_env);
            &&& f.rev is None
            &&& f.globs.len() == 0
            &&& f.rules.len() == 0
            &&& f.skip_generated
            &&& !f.only_comments
            &&& !f.init
            &&& !f.force
            &&& keys_env is None ==> f.preset == "vim"@ && !f.preset_given
            &&& theme_env is None ==> f.theme == "dark"@ && !f.theme_given
            &&& keys_env matches Some(k) ==> f.preset == k && f.preset_given
            &&& theme_env matches Some(t) ==> f.theme == t && f.theme_given
        }),
{
}

/// A review is started with what the flags say: the revision or the present commit,
/// the patterns, whether what is generated is skipped, whether only comments are
/// read, and the rule files.
pub proof fn law_a_review_starts_with_what_was_asked(
    f: FlagsText,
    cfg: Option<KeyConfig>,
    start: Start,
    told: Seq<Seq<char>>,
)
    requires
        decided(f, cfg, start, told),
        start is Review,
    ensures
        ({
            let s = start->Review_0;
            &&& f.rev matches Some(r) ==> s.rev@ == r
            &&& f.rev is None ==> s.rev@ == "HEAD"@
            &&& s.filter.skip_generated == f.skip_generated
            &&& s.only_comments == f.only_comments
            &&& texts(s.rules@) == f.rules
            &&& crate::filter::globs_made(s.filter.globs, f.globs)
        }),
        f.theme_given && cfg is None ==> theme_named(f.theme) == Some(start->Review_0.theme),
        !f.init,
{
}

/// What is asked for counts before what is configured, and that before the default.
pub proof fn law_a_choice_counts_before_the_configuration(value: Seq<char>, configured: Seq<char>)
    ensures
        crate::args::chosen(true, value, Some(configured)) == value,
        crate::args::chosen(false, value, Some(configured)) == configured,
        crate::args::chosen(false, value, None) == value,
        crate::args::chosen(true, value, None) == value,
{
}

/// The keys and the theme that a configuration file asks for are its own
/// settings of those names.
pub proof fn law_the_configuration_names_keys_and_theme(c: KeyConfig)
    ensures
        c.preset matches Some(p) ==> configured_preset(Some(c)) == Some(p@),
        c.preset is None ==> configured_preset(Some(c)) is None,
        c.theme matches Some(t) ==> configured_theme(Some(c)) == Some(t@),
        c.theme is None ==> configured_theme(Some(c)) is None,
        configured_preset(None) is None,
        configured_theme(None) is None,
{
}

} // verus!
