//! The description the root manager shows for this module.
use vstd::prelude::*;

use crate::text::{concat_str, nat_decimal, push_decimal};

verus! {

/// The storage label and emoji for a storage mode.
pub open spec fn storage_label(mode: Seq<char>) -> (Seq<char>, Seq<char>) {
    if mode == "tmpfs"@ {
        ("Tmpfs"@, "🐾"@)
    } else {
        ("Ext4"@, "💿"@)
    }
}

/// The counts shown: HymoFS only when it mounted something.
pub open spec fn stats_text(overlay: nat, magic: nat, hymofs: nat) -> Seq<char> {
    (if hymofs > 0 {
        "HymoFS: "@ + nat_decimal(hymofs) + "  "@
    } else {
        Seq::empty()
    }) + "Overlay: "@ + nat_decimal(overlay) + "  "@ + "Magic: "@ + nat_decimal(magic)
}

/// The description while running.
pub open spec fn running_description(mode: Seq<char>, overlay: nat, magic: nat, hymofs: nat) -> Seq<char> {
    "😋 运行中喵～ ("@ + storage_label(mode).0 + ") "@ + storage_label(mode).1 + "  "@ + stats_text(
        overlay,
        magic,
        hymofs,
    )
}

/// The description after a crash.
pub open spec fn crash_description(reason: Seq<char>) -> Seq<char> {
    "😭 崩溃了呜～ 原因: "@ + reason
}

/// The running description for a boot with these counts; the caller hands
/// it to the root manager.
pub fn update_description(storage_mode: &str, overlay_count: u64, magic_count: u64, hymofs_count: u64) -> (r: String)
    ensures
        r@ == running_description(storage_mode@, overlay_count as nat, magic_count as nat, hymofs_count as nat),
{
    let tmpfs = String::from_str(storage_mode) == String::from_str("tmpfs");
    let (label, emoji) = if tmpfs {
        ("Tmpfs", "🐾")
    } else {
        ("Ext4", "💿")
    };
    let mut out = String::from_str("😋 运行中喵～ (");
    out.append(label);
    out.append(") ");
    out.append(emoji);
    out.append("  ");
    let ghost head = out@;
    if hymofs_count > 0 {
        out.append("HymoFS: ");
        push_decimal(&mut out, hymofs_count);
        out.append("  ");
    }
    out.append("Overlay: ");
    push_decimal(&mut out, overlay_count);
    out.append("  ");
    out.append("Magic: ");
    push_decimal(&mut out, magic_count);
    assert(out@ =~= running_description(storage_mode@, overlay_count as nat, magic_count as nat, hymofs_count as nat));
    out
}

/// The crash description for `reason`.
pub fn update_crash_description(reason: &str) -> (r: String)
    ensures
        r@ == crash_description(reason@),
{
    concat_str("😭 崩溃了呜～ 原因: ", reason)
}

} // verus!
