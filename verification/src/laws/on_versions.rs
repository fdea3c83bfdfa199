//! Laws of [`crate::version`].
use vstd::prelude::*;

use crate::version;
use crate::version::{Version, VersionView};

verus! {

/// A number below ten is written as its digit, and a digit more is written
/// behind the rest.
pub proof fn law_decimal(n: nat, digit: nat)
    requires
        digit < 10,
    ensures
        version::decimal(digit) == seq!["0123456789"@[digit as int]],
        n > 0 ==> version::decimal(10 * n + digit) == version::decimal(n).push(
            "0123456789"@[digit as int],
        ),
{
    reveal_strlit("0123456789");
    if n > 0 {
        assert((10 * n + digit) / 10 == n);
        assert((10 * n + digit) % 10 == digit);
    }
}

/// A version is written as its three numbers with dots, then a dash and the
/// pre-release part, then a plus sign and the build part. An empty part has no
/// mark.
pub proof fn law_version_text(v: VersionView, part: Seq<char>)
    requires
        part.len() > 0,
    ensures
        ({
            let numbers = version::decimal(v.major as nat) + "."@ + version::decimal(
                v.minor as nat,
            ) + "."@ + version::decimal(v.patch as nat);
            let bare = VersionView { pre: seq![], build: seq![], ..v };
            &&& version::version_text(bare) == numbers
            &&& version::version_text(VersionView { pre: part, ..bare }) == numbers + "-"@ + part
            &&& version::version_text(VersionView { build: part, ..bare }) == numbers + "+"@ + part
            &&& v.pre.len() > 0 ==> version::version_text(VersionView { build: part, ..v })
                == numbers + "-"@ + v.pre + "+"@ + part
        }),
{
    reveal_strlit(".");
    reveal_strlit("-");
    reveal_strlit("+");
    let numbers = version::decimal(v.major as nat) + "."@ + version::decimal(v.minor as nat)
        + "."@ + version::decimal(v.patch as nat);
    let bare = VersionView { pre: seq![], build: seq![], ..v };
    assert("."@ =~= seq!['.'] && "-"@ =~= seq!['-'] && "+"@ =~= seq!['+']);
    assert(version::version_text(bare) =~= numbers);
    assert(version::version_text(VersionView { pre: part, ..bare }) =~= numbers + "-"@ + part);
    assert(version::version_text(VersionView { build: part, ..bare }) =~= numbers + "+"@ + part);
    if v.pre.len() > 0 {
        assert(version::version_text(VersionView { build: part, ..v }) =~= numbers + "-"@ + v.pre
            + "+"@ + part);
    }
}

/// Versions are told apart by each of their five parts.
pub proof fn law_version_parts(v: Version, w: Version)
    ensures
        v@ == w@ <==> {
            &&& v.major == w.major
            &&& v.minor == w.minor
            &&& v.patch == w.patch
            &&& v.pre@ == w.pre@
            &&& v.build@ == w.build@
        },
        v@ == (VersionView {
            major: v.major,
            minor: v.minor,
            patch: v.patch,
            pre: v.pre@,
            build: v.build@,
        }),
{
}

} // verus!
