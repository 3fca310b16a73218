//! The lines the kernel sets down on the page as it comes up.

use vstd::prelude::*;
use crate::graphics::{noted_on, write_annotation, Display, Page, ANNOTATION_INK};

verus! {

/// The boot sequence, line by line.
pub open spec fn boot_lines() -> Seq<&'static str> {
    seq![
        "MARGINALIA",
        "an annotated machine, begun again",
        "",
        "leaf i.    the processor holds long mode",
        "leaf ii.   forty columns at 0xa0000",
        "leaf iii.  faults become annotations",
        "leaf iv.   a quire kept against doubling",
        "leaf v.    bells at 32; the keys speak",
        "leaf vi.   memory charted from an offset",
        "leaf vii.  a heap at 0x4444_4444_0000",
        "leaf viii. each task writes in its turn",
        "leaf ix.   the ink is true sepia at last",
        "",
        "the margin is quiet.",
        "it will note what follows.",
    ]
}

/// The display after each of `lines` is written as an annotation, in order.
pub open spec fn annotated_lines(display: Option<Page>, lines: Seq<&'static str>) -> Option<Page>
    decreases lines.len(),
{
    if lines.len() == 0 {
        display
    } else {
        noted_on(
            annotated_lines(display, lines.drop_last()),
            ANNOTATION_INK,
            lines.last()@,
            true,
        )
    }
}

/// Writes the boot sequence as annotations, one line each.
pub fn boot_sequence(display: &mut Display)
    ensures
        final(display).wf(),
        final(display)@ == annotated_lines(old(display)@, boot_lines()),
{
    let lines: [&'static str; 15] = [
        "MARGINALIA",
        "an annotated machine, begun again",
        "",
        "leaf i.    the processor holds long mode",
        "leaf ii.   forty columns at 0xa0000",
        "leaf iii.  faults become annotations",
        "leaf iv.   a quire kept against doubling",
        "leaf v.    bells at 32; the keys speak",
        "leaf vi.   memory charted from an offset",
        "leaf vii.  a heap at 0x4444_4444_0000",
        "leaf viii. each task writes in its turn",
        "leaf ix.   the ink is true sepia at last",
        "",
        "the margin is quiet.",
        "it will note what follows.",
    ];
    proof {
        use_type_invariant(&*display);
    }
    assert(lines@ =~= boot_lines());
    let mut i: usize = 0;
    while i < 15
        invariant
            i <= 15,
            lines@ == boot_lines(),
            display.wf(),
            display@ == annotated_lines(old(display)@, boot_lines().take(i as int)),
        decreases 15 - i,
    {
        write_annotation(display, lines[i]);
        assert(boot_lines().take(i + 1).drop_last() =~= boot_lines().take(i as int));
        i += 1;
    }
    assert(boot_lines().take(15) =~= boot_lines());
}

} // verus!
