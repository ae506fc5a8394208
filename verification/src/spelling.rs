//! The words that count in arguments, paths and files, byte by byte.

use vstd::prelude::*;
use vstd::string::*;
use vstd::utf8::*;

verus! {

/// The bytes of `cargo`.
pub proof fn cargo()
    ensures
        encode_utf8("cargo"@) == seq![99u8, 97u8, 114u8, 103u8, 111u8],
{
    reveal_strlit("cargo");
    is_ascii_chars_encode_utf8("cargo"@);
    assert(encode_utf8("cargo"@) =~= seq![99u8, 97u8, 114u8, 103u8, 111u8]);
}

/// The bytes of `target`.
pub proof fn target()
    ensures
        encode_utf8("target"@) == seq![116u8, 97u8, 114u8, 103u8, 101u8, 116u8],
{
    reveal_strlit("target");
    is_ascii_chars_encode_utf8("target"@);
    assert(encode_utf8("target"@) =~= seq![116u8, 97u8, 114u8, 103u8, 101u8, 116u8]);
}

/// The bytes of `node_modules`.
pub proof fn node_modules()
    ensures
        encode_utf8("node_modules"@) == seq![110u8, 111u8, 100u8, 101u8, 95u8, 109u8, 111u8, 100u8, 117u8, 108u8, 101u8, 115u8],
{
    reveal_strlit("node_modules");
    is_ascii_chars_encode_utf8("node_modules"@);
    assert(encode_utf8("node_modules"@) =~= seq![110u8, 111u8, 100u8, 101u8, 95u8, 109u8, 111u8, 100u8, 117u8, 108u8, 101u8, 115u8]);
}

/// The bytes of `Library`.
pub proof fn library()
    ensures
        encode_utf8("Library"@) == seq![76u8, 105u8, 98u8, 114u8, 97u8, 114u8, 121u8],
{
    reveal_strlit("Library");
    is_ascii_chars_encode_utf8("Library"@);
    assert(encode_utf8("Library"@) =~= seq![76u8, 105u8, 98u8, 114u8, 97u8, 114u8, 121u8]);
}

/// The bytes of `--`.
pub proof fn dashes()
    ensures
        encode_utf8("--"@) == seq![45u8, 45u8],
{
    reveal_strlit("--");
    is_ascii_chars_encode_utf8("--"@);
    assert(encode_utf8("--"@) =~= seq![45u8, 45u8]);
}

/// The bytes of `--include-untracked`.
pub proof fn option()
    ensures
        encode_utf8("--include-untracked"@) == seq![45u8, 45u8, 105u8, 110u8, 99u8, 108u8, 117u8, 100u8, 101u8, 45u8, 117u8, 110u8, 116u8, 114u8, 97u8, 99u8, 107u8, 101u8, 100u8],
{
    reveal_strlit("--include-untracked");
    is_ascii_chars_encode_utf8("--include-untracked"@);
    assert(encode_utf8("--include-untracked"@) =~= seq![45u8, 45u8, 105u8, 110u8, 99u8, 108u8, 117u8, 100u8, 101u8, 45u8, 117u8, 110u8, 116u8, 114u8, 97u8, 99u8, 107u8, 101u8, 100u8]);
}

/// The bytes of `__gc-detached`.
pub proof fn child_verb()
    ensures
        encode_utf8("__gc-detached"@) == seq![95u8, 95u8, 103u8, 99u8, 45u8, 100u8, 101u8, 116u8, 97u8, 99u8, 104u8, 101u8, 100u8],
{
    reveal_strlit("__gc-detached");
    is_ascii_chars_encode_utf8("__gc-detached"@);
    assert(encode_utf8("__gc-detached"@) =~= seq![95u8, 95u8, 103u8, 99u8, 45u8, 100u8, 101u8, 116u8, 97u8, 99u8, 104u8, 101u8, 100u8]);
}

/// The bytes of `cargo-`.
pub proof fn cargo_prefix()
    ensures
        encode_utf8("cargo-"@) == seq![99u8, 97u8, 114u8, 103u8, 111u8, 45u8],
{
    reveal_strlit("cargo-");
    is_ascii_chars_encode_utf8("cargo-"@);
    assert(encode_utf8("cargo-"@) =~= seq![99u8, 97u8, 114u8, 103u8, 111u8, 45u8]);
}

/// The bytes of `/tmp`.
pub proof fn tmp()
    ensures
        encode_utf8("/tmp"@) == seq![47u8, 116u8, 109u8, 112u8],
{
    reveal_strlit("/tmp");
    is_ascii_chars_encode_utf8("/tmp"@);
    assert(encode_utf8("/tmp"@) =~= seq![47u8, 116u8, 109u8, 112u8]);
}

/// The bytes of `purge`.
pub proof fn purge()
    ensures
        encode_utf8("purge"@) == seq![112u8, 117u8, 114u8, 103u8, 101u8],
{
    reveal_strlit("purge");
    is_ascii_chars_encode_utf8("purge"@);
    assert(encode_utf8("purge"@) =~= seq![112u8, 117u8, 114u8, 103u8, 101u8]);
}

/// The bytes of `ls`.
pub proof fn ls()
    ensures
        encode_utf8("ls"@) == seq![108u8, 115u8],
{
    reveal_strlit("ls");
    is_ascii_chars_encode_utf8("ls"@);
    assert(encode_utf8("ls"@) =~= seq![108u8, 115u8]);
}

/// The bytes of `--version`.
pub proof fn long_version()
    ensures
        encode_utf8("--version"@) == seq![45u8, 45u8, 118u8, 101u8, 114u8, 115u8, 105u8, 111u8, 110u8],
{
    reveal_strlit("--version");
    is_ascii_chars_encode_utf8("--version"@);
    assert(encode_utf8("--version"@) =~= seq![45u8, 45u8, 118u8, 101u8, 114u8, 115u8, 105u8, 111u8, 110u8]);
}

/// The bytes of `-V`.
pub proof fn short_version()
    ensures
        encode_utf8("-V"@) == seq![45u8, 86u8],
{
    reveal_strlit("-V");
    is_ascii_chars_encode_utf8("-V"@);
    assert(encode_utf8("-V"@) =~= seq![45u8, 86u8]);
}

/// The bytes of `version`.
pub proof fn version()
    ensures
        encode_utf8("version"@) == seq![118u8, 101u8, 114u8, 115u8, 105u8, 111u8, 110u8],
{
    reveal_strlit("version");
    is_ascii_chars_encode_utf8("version"@);
    assert(encode_utf8("version"@) =~= seq![118u8, 101u8, 114u8, 115u8, 105u8, 111u8, 110u8]);
}

} // verus!
