//! The layout of a whole-device backup: how each AlphaWord file and each
//! SmartApplet is named, and the manifest that lists them.

use vstd::prelude::*;
use crate::manager::{sanitize_name, sanitized};
use crate::protocol::{FileEntry, SmartAppletRecord};
use crate::text::{decimal, hex_digits, hex_digits_upper, push_decimal, push_hex, push_hex_upper};

verus! {

/// The two-digit decimal form of a slot number below 100 (more digits
/// where it is larger).
pub open spec fn two_digits(n: nat) -> Seq<char> {
    if n < 10 {
        seq!['0'] + decimal(n)
    } else {
        decimal(n)
    }
}

fn push_two_digits(s: &mut String, n: u8)
    ensures
        final(s)@ == old(s)@ + two_digits(n as nat),
{
    if n < 10 {
        s.append("0");
    }
    push_decimal(s, n as u64);
    proof {
        reveal_strlit("0");
        if n < 10 {
            assert(final(s)@ =~= old(s)@ + two_digits(n as nat));
        }
    }
}

/// The base name of an AlphaWord file's backup: `slot-NN-` and the file's
/// name made safe for a file system.
pub open spec fn slot_file_base_of(slot: u8, name: Seq<char>) -> Seq<char> {
    "slot-"@ + two_digits(slot as nat) + "-"@ + sanitized(name)
}

/// The base name of an AlphaWord file's backup.
pub fn slot_file_base(slot: u8, name: &str) -> (r: String)
    ensures
        r@ == slot_file_base_of(slot, name@),
{
    let mut s = String::from_str("slot-");
    push_two_digits(&mut s, slot);
    s.append("-");
    let clean = sanitize_name(name);
    s.append(clean.as_str());
    s
}

/// The file a dumped SmartApplet is saved as: its id in four upper-case
/// hexadecimal digits.
pub fn applet_dump_file_name(applet_id: u16) -> (r: String)
    ensures
        r@ == hex_digits_upper(applet_id as nat, 4) + ".os3kapp"@,
{
    let mut s = String::new();
    push_hex_upper(&mut s, applet_id as u64, 4);
    s.append(".os3kapp");
    s
}

/// The manifest line of an AlphaWord file.
pub open spec fn file_line(f: FileEntry) -> Seq<char> {
    "- slot="@ + decimal(f.slot as nat) + " name="@ + f.name@ + " file_length="@ + decimal(f.attribute_bytes as nat)
}

/// The manifest line of a SmartApplet.
pub open spec fn applet_line(a: SmartAppletRecord) -> Seq<char> {
    "- applet_id=0x"@ + hex_digits(a.applet_id as nat, 4) + " version="@ + a.version@ + " name="@ + a.name@
        + " file_size="@ + decimal(a.file_size as nat) + " class=0x"@ + hex_digits(a.applet_class as nat, 2)
}

/// Lines joined by line feeds.
pub open spec fn joined(lines: Seq<Seq<char>>) -> Seq<char>
    decreases lines.len(),
{
    if lines.len() == 0 {
        Seq::empty()
    } else if lines.len() == 1 {
        lines[0]
    } else {
        joined(lines.drop_last()) + seq!['\n'] + lines.last()
    }
}

/// The lines of a backup's manifest: a title, the counts, then a line for
/// each AlphaWord file and for each SmartApplet, in the order given.
pub open spec fn manifest_lines(files: Seq<FileEntry>, applets: Seq<SmartAppletRecord>) -> Seq<Seq<char>> {
    seq![
        "AlphaSmart NEO full backup"@,
        "files="@ + decimal(files.len()),
        "applets="@ + decimal(applets.len()),
        Seq::<char>::empty(),
        "AlphaWord slots:"@,
    ] + Seq::new(files.len(), |i: int| file_line(files[i])) + seq![Seq::<char>::empty(), "SmartApplets:"@]
        + Seq::new(applets.len(), |i: int| applet_line(applets[i]))
}

fn push_line(out: &mut String, first: bool, line: &str)
    ensures
        final(out)@ == (if first { old(out)@ + line@ } else { old(out)@ + seq!['\n'] + line@ }),
{
    if !first {
        out.append("\n");
    }
    out.append(line);
    proof {
        reveal_strlit("\n");
        if !first {
            assert(final(out)@ =~= old(out)@ + seq!['\n'] + line@);
        }
    }
}

fn file_line_text(f: &FileEntry) -> (r: String)
    ensures
        r@ == file_line(*f),
{
    let mut s = String::from_str("- slot=");
    push_decimal(&mut s, f.slot as u64);
    s.append(" name=");
    s.append(f.name.as_str());
    s.append(" file_length=");
    push_decimal(&mut s, f.attribute_bytes as u64);
    s
}

fn applet_line_text(a: &SmartAppletRecord) -> (r: String)
    ensures
        r@ == applet_line(*a),
{
    let mut s = String::from_str("- applet_id=0x");
    push_hex(&mut s, a.applet_id as u64, 4);
    s.append(" version=");
    s.append(a.version.as_str());
    s.append(" name=");
    s.append(a.name.as_str());
    s.append(" file_size=");
    push_decimal(&mut s, a.file_size as u64);
    s.append(" class=0x");
    push_hex(&mut s, a.applet_class as u64, 2);
    s
}

fn count_line(label: &str, n: usize) -> (r: String)
    ensures
        r@ == label@ + decimal(n as nat),
{
    let mut s = String::from_str(label);
    push_decimal(&mut s, n as u64);
    s
}

proof fn lemma_joined_push(lines: Seq<Seq<char>>, line: Seq<char>)
    ensures
        joined(lines.push(line)) == (if lines.len() == 0 { line } else { joined(lines) + seq!['\n'] + line }),
{
    assert(lines.push(line).drop_last() =~= lines);
}

/// The manifest of a whole-device backup.
pub fn build_backup_manifest(files: &[FileEntry], applets: &[SmartAppletRecord]) -> (r: String)
    ensures
        r@ == joined(manifest_lines(files@, applets@)),
{
    let ghost all = manifest_lines(files@, applets@);
    let ghost mut done: Seq<Seq<char>> = Seq::empty();
    let mut out = String::new();
    let title = String::from_str("AlphaSmart NEO full backup");
    let head: [String; 5] = [
        title,
        count_line("files=", files.len()),
        count_line("applets=", applets.len()),
        String::new(),
        String::from_str("AlphaWord slots:"),
    ];
    let mut k: usize = 0;
    while k < 5
        invariant
            k <= 5,
            all == manifest_lines(files@, applets@),
            done == all.subrange(0, k as int),
            out@ == joined(done),
            head@.len() == 5,
            forall|j: int| 0 <= j < 5 ==> (#[trigger] head@[j])@ == all[j],
        decreases 5 - k,
    {
        push_line(&mut out, k == 0, head[k].as_str());
        proof {
            lemma_joined_push(done, all[k as int]);
            done = done.push(all[k as int]);
            assert(done =~= all.subrange(0, k + 1));
        }
        k = k + 1;
    }
    let mut i: usize = 0;
    while i < files.len()
        invariant
            i <= files@.len(),
            all == manifest_lines(files@, applets@),
            done == all.subrange(0, 5 + i),
            done.len() > 0,
            out@ == joined(done),
        decreases files@.len() - i,
    {
        let line = file_line_text(&files[i]);
        push_line(&mut out, false, line.as_str());
        proof {
            lemma_joined_push(done, all[5 + i]);
            done = done.push(all[5 + i]);
            assert(done =~= all.subrange(0, 5 + i + 1));
        }
        i = i + 1;
    }
    let ghost base: int = 5 + files@.len() as int;
    push_line(&mut out, false, "");
    proof {
        reveal_strlit("");
        lemma_joined_push(done, all[base]);
        done = done.push(all[base]);
        assert(done =~= all.subrange(0, base + 1));
    }
    push_line(&mut out, false, "SmartApplets:");
    proof {
        lemma_joined_push(done, all[base + 1]);
        done = done.push(all[base + 1]);
        assert(done =~= all.subrange(0, base + 2));
    }
    let mut j: usize = 0;
    while j < applets.len()
        invariant
            j <= applets@.len(),
            all == manifest_lines(files@, applets@),
            base == 5 + files@.len(),
            done == all.subrange(0, base + 2 + j),
            done.len() > 0,
            out@ == joined(done),
        decreases applets@.len() - j,
    {
        let line = applet_line_text(&applets[j]);
        push_line(&mut out, false, line.as_str());
        proof {
            lemma_joined_push(done, all[base + 2 + j]);
            done = done.push(all[base + 2 + j]);
            assert(done =~= all.subrange(0, base + 2 + j + 1));
        }
        j = j + 1;
    }
    assert(done =~= all);
    out
}

} // verus!
