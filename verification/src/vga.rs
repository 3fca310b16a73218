//! Entering VGA mode 13h: the register values and the order in which the
//! kernel writes them to the VGA ports.

use vstd::prelude::*;
use vstd::arithmetic::div_mod::{lemma_fundamental_div_mod, lemma_fundamental_div_mod_converse};
use crate::graphics::{palette_dac_bytes, palette_rgb};

verus! {

/// One access to an I/O port: a byte written, or a byte read.
#[derive(Debug, Clone, Copy, PartialEq, Eq, Structural)]
pub enum PortAccess {
    Write(u16, u8),
    Read(u16),
}

pub const MISC_OUTPUT_PORT: u16 = 0x3c2;
pub const SEQUENCER_INDEX_PORT: u16 = 0x3c4;
pub const SEQUENCER_DATA_PORT: u16 = 0x3c5;
pub const CRTC_INDEX_PORT: u16 = 0x3d4;
pub const CRTC_DATA_PORT: u16 = 0x3d5;
pub const GRAPHICS_INDEX_PORT: u16 = 0x3ce;
pub const GRAPHICS_DATA_PORT: u16 = 0x3cf;
pub const INPUT_STATUS_PORT: u16 = 0x3da;
pub const ATTRIBUTE_PORT: u16 = 0x3c0;

/// The miscellaneous output register for 320 x 200 at 256 colours.
pub const MISC_OUTPUT: u8 = 0x63;

/// The number of port accesses that enter the mode.
pub const MODE_13H_ACCESSES: usize = 150;

/// Sequencer registers 0 to 4.
pub open spec fn sequencer_values() -> Seq<u8> {
    seq![0x03u8, 0x01, 0x0f, 0x00, 0x0e]
}

/// CRT controller registers 0 to 24.
pub open spec fn crtc_values() -> Seq<u8> {
    seq![
        0x5fu8, 0x4f, 0x50, 0x82, 0x54, 0x80, 0xbf, 0x1f, 0x00, 0x41, 0x00, 0x00, 0x00,
        0x00, 0x00, 0x00, 0x9c, 0x0e, 0x8f, 0x28, 0x40, 0x96, 0xb9, 0xa3, 0xff,
    ]
}

/// Graphics controller registers 0 to 8.
pub open spec fn graphics_values() -> Seq<u8> {
    seq![0x00u8, 0x00, 0x00, 0x00, 0x00, 0x40, 0x05, 0x0f, 0xff]
}

/// Attribute controller registers 0 to 20.
pub open spec fn attribute_values() -> Seq<u8> {
    seq![
        0x00u8, 0x01, 0x02, 0x03, 0x04, 0x05, 0x06, 0x07, 0x08, 0x09, 0x0a, 0x0b, 0x0c,
        0x0d, 0x0e, 0x0f, 0x41, 0x00, 0x0f, 0x00, 0x00,
    ]
}

/// Register `k` of `values` set through an index port and a data port:
/// the index, then the value, for each register in turn.
pub open spec fn indexed_writes(index_port: u16, data_port: u16, values: Seq<u8>) -> Seq<PortAccess> {
    Seq::new(
        2 * values.len(),
        |k: int|
            if k % 2 == 0 {
                PortAccess::Write(index_port, (k / 2) as u8)
            } else {
                PortAccess::Write(data_port, values[k / 2])
            },
    )
}

/// Attribute register `k` of `values` set through the attribute port:
/// reading the input status resets the port's flip-flop to the index, then
/// the index and the value follow.
pub open spec fn attribute_writes(values: Seq<u8>) -> Seq<PortAccess> {
    Seq::new(
        3 * values.len(),
        |k: int|
            if k % 3 == 0 {
                PortAccess::Read(INPUT_STATUS_PORT)
            } else if k % 3 == 1 {
                PortAccess::Write(ATTRIBUTE_PORT, (k / 3) as u8)
            } else {
                PortAccess::Write(ATTRIBUTE_PORT, values[k / 3])
            },
    )
}

/// Unlocking CRT controller registers 0 to 7: bit 7 of register 3 is set
/// and bit 7 (write protect) of register 0x11 is cleared, each by reading
/// the register and writing back the changed value.
pub open spec fn crtc_unlock(horizontal_blank_end: u8, vertical_retrace_end: u8) -> Seq<PortAccess> {
    seq![
        PortAccess::Write(CRTC_INDEX_PORT, 0x03),
        PortAccess::Read(CRTC_DATA_PORT),
        PortAccess::Write(CRTC_DATA_PORT, horizontal_blank_end | 0x80u8),
        PortAccess::Write(CRTC_INDEX_PORT, 0x11),
        PortAccess::Read(CRTC_DATA_PORT),
        PortAccess::Write(CRTC_DATA_PORT, vertical_retrace_end & !0x80u8),
    ]
}

/// Every port access that enters mode 13h, in order, given the values the
/// two CRT controller reads return: the miscellaneous output, the
/// sequencer, the CRT controller unlock and registers, the graphics
/// controller, the attribute controller, and finally re-enabling the
/// display through the attribute port.
pub open spec fn mode_13h_schedule(horizontal_blank_end: u8, vertical_retrace_end: u8) -> Seq<PortAccess> {
    seq![PortAccess::Write(MISC_OUTPUT_PORT, MISC_OUTPUT)]
        + indexed_writes(SEQUENCER_INDEX_PORT, SEQUENCER_DATA_PORT, sequencer_values())
        + crtc_unlock(horizontal_blank_end, vertical_retrace_end)
        + indexed_writes(CRTC_INDEX_PORT, CRTC_DATA_PORT, crtc_values())
        + indexed_writes(GRAPHICS_INDEX_PORT, GRAPHICS_DATA_PORT, graphics_values())
        + attribute_writes(attribute_values())
        + seq![PortAccess::Read(INPUT_STATUS_PORT), PortAccess::Write(ATTRIBUTE_PORT, 0x20)]
}

/// The access at position `step`, when the latest read returned
/// `last_read`; none once the schedule is done. Each write that depends on
/// a read comes right after that read, so `last_read` is the value it needs.
pub open spec fn mode_13h_access(step: int, last_read: u8) -> Option<PortAccess> {
    if 0 <= step < mode_13h_schedule(last_read, last_read).len() {
        Some(mode_13h_schedule(last_read, last_read)[step])
    } else {
        None
    }
}

/// The port access at position `step` of entering mode 13h, given the
/// byte the latest read returned; `None` once every access is done.
pub fn mode_13h_step(step: usize, last_read: u8) -> (access: Option<PortAccess>)
    ensures
        access == mode_13h_access(step as int, last_read),
{
    let ghost schedule = mode_13h_schedule(last_read, last_read);
    let ghost p1 = seq![PortAccess::Write(MISC_OUTPUT_PORT, MISC_OUTPUT)];
    let ghost p2 = p1 + indexed_writes(SEQUENCER_INDEX_PORT, SEQUENCER_DATA_PORT, sequencer_values());
    let ghost p3 = p2 + crtc_unlock(last_read, last_read);
    let ghost p4 = p3 + indexed_writes(CRTC_INDEX_PORT, CRTC_DATA_PORT, crtc_values());
    let ghost p5 = p4 + indexed_writes(GRAPHICS_INDEX_PORT, GRAPHICS_DATA_PORT, graphics_values());
    let ghost p6 = p5 + attribute_writes(attribute_values());
    assert(schedule == p6 + seq![PortAccess::Read(INPUT_STATUS_PORT), PortAccess::Write(ATTRIBUTE_PORT, 0x20)]);
    assert(p1.len() == 1 && p2.len() == 11 && p3.len() == 17 && p4.len() == 67 && p5.len() == 85
        && p6.len() == 148 && schedule.len() == MODE_13H_ACCESSES);
    if step == 0 {
        Some(PortAccess::Write(MISC_OUTPUT_PORT, MISC_OUTPUT))
    } else if step < 11 {
        let values: [u8; 5] = [0x03, 0x01, 0x0f, 0x00, 0x0e];
        assert(values@ =~= sequencer_values());
        let k = step - 1;
        assert(schedule[step as int] == p2[step as int]);
        if k % 2 == 0 {
            Some(PortAccess::Write(SEQUENCER_INDEX_PORT, (k / 2) as u8))
        } else {
            Some(PortAccess::Write(SEQUENCER_DATA_PORT, values[k / 2]))
        }
    } else if step < 17 {
        assert(schedule[step as int] == p3[step as int]);
        let access = if step == 11 {
            PortAccess::Write(CRTC_INDEX_PORT, 0x03)
        } else if step == 12 {
            PortAccess::Read(CRTC_DATA_PORT)
        } else if step == 13 {
            PortAccess::Write(CRTC_DATA_PORT, last_read | 0x80u8)
        } else if step == 14 {
            PortAccess::Write(CRTC_INDEX_PORT, 0x11)
        } else if step == 15 {
            PortAccess::Read(CRTC_DATA_PORT)
        } else {
            PortAccess::Write(CRTC_DATA_PORT, last_read & !0x80u8)
        };
        Some(access)
    } else if step < 67 {
        let values: [u8; 25] = [
            0x5f, 0x4f, 0x50, 0x82, 0x54, 0x80, 0xbf, 0x1f, 0x00, 0x41, 0x00, 0x00, 0x00,
            0x00, 0x00, 0x00, 0x9c, 0x0e, 0x8f, 0x28, 0x40, 0x96, 0xb9, 0xa3, 0xff,
        ];
        assert(values@ =~= crtc_values());
        let k = step - 17;
        assert(schedule[step as int] == p4[step as int]);
        if k % 2 == 0 {
            Some(PortAccess::Write(CRTC_INDEX_PORT, (k / 2) as u8))
        } else {
            Some(PortAccess::Write(CRTC_DATA_PORT, values[k / 2]))
        }
    } else if step < 85 {
        let values: [u8; 9] = [0x00, 0x00, 0x00, 0x00, 0x00, 0x40, 0x05, 0x0f, 0xff];
        assert(values@ =~= graphics_values());
        let k = step - 67;
        assert(schedule[step as int] == p5[step as int]);
        if k % 2 == 0 {
            Some(PortAccess::Write(GRAPHICS_INDEX_PORT, (k / 2) as u8))
        } else {
            Some(PortAccess::Write(GRAPHICS_DATA_PORT, values[k / 2]))
        }
    } else if step < 148 {
        let values: [u8; 21] = [
            0x00, 0x01, 0x02, 0x03, 0x04, 0x05, 0x06, 0x07, 0x08, 0x09, 0x0a, 0x0b, 0x0c,
            0x0d, 0x0e, 0x0f, 0x41, 0x00, 0x0f, 0x00, 0x00,
        ];
        assert(values@ =~= attribute_values());
        let k = step - 85;
        assert(schedule[step as int] == p6[step as int]);
        if k % 3 == 0 {
            Some(PortAccess::Read(INPUT_STATUS_PORT))
        } else if k % 3 == 1 {
            Some(PortAccess::Write(ATTRIBUTE_PORT, (k / 3) as u8))
        } else {
            Some(PortAccess::Write(ATTRIBUTE_PORT, values[k / 3]))
        }
    } else if step == 148 {
        Some(PortAccess::Read(INPUT_STATUS_PORT))
    } else if step == 149 {
        Some(PortAccess::Write(ATTRIBUTE_PORT, 0x20))
    } else {
        None
    }
}


/// The DAC port that selects the first palette index to program.
pub const DAC_WRITE_INDEX_PORT: u16 = 0x3c8;

/// The DAC port that takes red, green and blue of one index after another.
pub const DAC_DATA_PORT: u16 = 0x3c9;

/// Component `k % 3` (red, green, blue) of palette index `k / 3`.
pub open spec fn palette_component(k: int) -> u8 {
    let rgb = palette_rgb((k / 3) as u8);
    if k % 3 == 0 {
        rgb.0
    } else if k % 3 == 1 {
        rgb.1
    } else {
        rgb.2
    }
}

/// Every port access that programs the palette: the DAC index is set to 0,
/// then the components of all 256 indices follow in order.
pub open spec fn palette_schedule() -> Seq<PortAccess> {
    seq![PortAccess::Write(DAC_WRITE_INDEX_PORT, 0)] + Seq::new(
        768,
        |k: int| PortAccess::Write(DAC_DATA_PORT, palette_component(k)),
    )
}

/// The port accesses that program the palette, in order.
pub fn palette_accesses() -> (accesses: Vec<PortAccess>)
    ensures
        accesses@ == palette_schedule(),
{
    let bytes = palette_dac_bytes();
    let mut accesses: Vec<PortAccess> = Vec::new();
    accesses.push(PortAccess::Write(DAC_WRITE_INDEX_PORT, 0));
    let mut k: usize = 0;
    while k < 768
        invariant
            k <= 768,
            bytes@.len() == 768,
            forall|i: int|
                0 <= i < 256 ==> {
                    &&& #[trigger] bytes@[3 * i] == palette_rgb(i as u8).0
                    &&& bytes@[3 * i + 1] == palette_rgb(i as u8).1
                    &&& bytes@[3 * i + 2] == palette_rgb(i as u8).2
                },
            accesses@.len() == k + 1,
            accesses@[0] == PortAccess::Write(DAC_WRITE_INDEX_PORT, 0),
            forall|j: int|
                0 <= j < k ==> #[trigger] accesses@[j + 1] == PortAccess::Write(
                    DAC_DATA_PORT,
                    palette_component(j),
                ),
        decreases 768 - k,
    {
        proof {
            let i = k as int / 3;
            lemma_fundamental_div_mod(k as int, 3);
            assert(bytes@[3 * i] == palette_rgb(i as u8).0);
            assert(bytes@[k as int] == palette_component(k as int));
        }
        accesses.push(PortAccess::Write(DAC_DATA_PORT, bytes[k]));
        assert(accesses@[k + 1] == PortAccess::Write(DAC_DATA_PORT, palette_component(k as int)));
        k += 1;
    }
    assert forall|j: int| 0 <= j < accesses@.len() implies accesses@[j] == palette_schedule()[j] by {
        if j > 0 {
            assert(accesses@[(j - 1) + 1] == PortAccess::Write(DAC_DATA_PORT, palette_component(j - 1)));
        }
    }
    assert(accesses@ =~= palette_schedule());
    accesses
}

/// The access at position `k` of the schedule, read off the part it falls in.
proof fn lemma_schedule_at(h: u8, v: u8, k: int)
    requires
        0 <= k < 150,
    ensures
        mode_13h_schedule(h, v).len() == 150,
        k < 1 ==> mode_13h_schedule(h, v)[k] == PortAccess::Write(MISC_OUTPUT_PORT, MISC_OUTPUT),
        1 <= k < 11 ==> mode_13h_schedule(h, v)[k] == indexed_writes(
            SEQUENCER_INDEX_PORT,
            SEQUENCER_DATA_PORT,
            sequencer_values(),
        )[k - 1],
        11 <= k < 17 ==> mode_13h_schedule(h, v)[k] == crtc_unlock(h, v)[k - 11],
        17 <= k < 67 ==> mode_13h_schedule(h, v)[k] == indexed_writes(
            CRTC_INDEX_PORT,
            CRTC_DATA_PORT,
            crtc_values(),
        )[k - 17],
        67 <= k < 85 ==> mode_13h_schedule(h, v)[k] == indexed_writes(
            GRAPHICS_INDEX_PORT,
            GRAPHICS_DATA_PORT,
            graphics_values(),
        )[k - 67],
        85 <= k < 148 ==> mode_13h_schedule(h, v)[k] == attribute_writes(attribute_values())[k - 85],
        k == 148 ==> mode_13h_schedule(h, v)[k] == PortAccess::Read(INPUT_STATUS_PORT),
        k == 149 ==> mode_13h_schedule(h, v)[k] == PortAccess::Write(ATTRIBUTE_PORT, 0x20),
{
    let schedule = mode_13h_schedule(h, v);
    let p1 = seq![PortAccess::Write(MISC_OUTPUT_PORT, MISC_OUTPUT)];
    let p2 = p1 + indexed_writes(SEQUENCER_INDEX_PORT, SEQUENCER_DATA_PORT, sequencer_values());
    let p3 = p2 + crtc_unlock(h, v);
    let p4 = p3 + indexed_writes(CRTC_INDEX_PORT, CRTC_DATA_PORT, crtc_values());
    let p5 = p4 + indexed_writes(GRAPHICS_INDEX_PORT, GRAPHICS_DATA_PORT, graphics_values());
    let p6 = p5 + attribute_writes(attribute_values());
    assert(schedule == p6 + seq![PortAccess::Read(INPUT_STATUS_PORT), PortAccess::Write(ATTRIBUTE_PORT, 0x20)]);
    assert(p1.len() == 1 && p2.len() == 11 && p3.len() == 17 && p4.len() == 67 && p5.len() == 85
        && p6.len() == 148);
}

/// Position `k` of a run of index/value pairs is index `k / 2` when even,
/// the value of register `k / 2` when odd.
proof fn lemma_pair(k: int)
    requires
        k >= 0,
    ensures
        (2 * k) % 2 == 0,
        (2 * k) / 2 == k,
        (2 * k + 1) % 2 == 1,
        (2 * k + 1) / 2 == k,
{
    lemma_fundamental_div_mod_converse(2 * k, 2, k, 0);
    lemma_fundamental_div_mod_converse(2 * k + 1, 2, k, 1);
}

/// Position `k` of a run of status/index/value triples.
proof fn lemma_triple(k: int)
    requires
        k >= 0,
    ensures
        (3 * k) % 3 == 0,
        (3 * k + 1) % 3 == 1,
        (3 * k + 1) / 3 == k,
        (3 * k + 2) % 3 == 2,
        (3 * k + 2) / 3 == k,
{
    lemma_fundamental_div_mod_converse(3 * k, 3, k, 0);
    lemma_fundamental_div_mod_converse(3 * k + 1, 3, k, 1);
    lemma_fundamental_div_mod_converse(3 * k + 2, 3, k, 2);
}

/// Unlocking the CRT controller reads register 3 and writes it back with
/// bit 7 set and its other bits kept, then reads register 0x11 and writes
/// it back with bit 7 (write protect) cleared and its other bits kept; each
/// write-back follows its read directly, on the CRT controller's ports.
pub proof fn law_crtc_unlock_sets_then_clears_bit_7(last_read: u8)
    ensures
        mode_13h_access(11, last_read) == Some(PortAccess::Write(0x3d4, 0x03)),
        mode_13h_access(12, last_read) == Some(PortAccess::Read(0x3d5)),
        mode_13h_access(13, last_read) matches Some(PortAccess::Write(port, value)) && port == 0x3d5
            && value & 0x80 == 0x80 && value & 0x7f == last_read & 0x7f,
        mode_13h_access(14, last_read) == Some(PortAccess::Write(0x3d4, 0x11)),
        mode_13h_access(15, last_read) == Some(PortAccess::Read(0x3d5)),
        mode_13h_access(16, last_read) matches Some(PortAccess::Write(port, value)) && port == 0x3d5
            && value & 0x80 == 0 && value & 0x7f == last_read & 0x7f,
{
    lemma_schedule_at(last_read, last_read, 11);
    lemma_schedule_at(last_read, last_read, 12);
    lemma_schedule_at(last_read, last_read, 13);
    lemma_schedule_at(last_read, last_read, 14);
    lemma_schedule_at(last_read, last_read, 15);
    lemma_schedule_at(last_read, last_read, 16);
    let r = last_read;
    assert((r | 0x80u8) & 0x80 == 0x80 && (r | 0x80u8) & 0x7f == r & 0x7f) by (bit_vector);
    assert((r & !0x80u8) & 0x80 == 0 && (r & !0x80u8) & 0x7f == r & 0x7f) by (bit_vector);
}

/// Entering the mode takes 150 accesses whatever is read back: it opens
/// with the miscellaneous output register, and ends by reading the input
/// status and writing 0x20 to the attribute port, which turns the display
/// back on.
pub proof fn law_mode_13h_opens_and_closes(last_read: u8, step: int)
    ensures
        (mode_13h_access(step, last_read) is None) <==> !(0 <= step < 150),
        mode_13h_access(0, last_read) == Some(PortAccess::Write(0x3c2, 0x63)),
        mode_13h_access(148, last_read) == Some(PortAccess::Read(0x3da)),
        mode_13h_access(149, last_read) == Some(PortAccess::Write(0x3c0, 0x20)),
{
    lemma_schedule_at(last_read, last_read, 0);
    lemma_schedule_at(last_read, last_read, 148);
    lemma_schedule_at(last_read, last_read, 149);
}

/// The sequencer's five registers are set in order through its ports:
/// index `k` to port 0x3c4, then register `k`'s value to port 0x3c5.
pub proof fn law_sequencer_registers_in_order(last_read: u8, k: int)
    requires
        0 <= k < 5,
    ensures
        mode_13h_access(1 + 2 * k, last_read) == Some(PortAccess::Write(0x3c4, k as u8)),
        mode_13h_access(2 + 2 * k, last_read) matches Some(PortAccess::Write(port, _)) && port == 0x3c5,
{
    lemma_pair(k);
    lemma_schedule_at(last_read, last_read, 1 + 2 * k);
    lemma_schedule_at(last_read, last_read, 2 + 2 * k);
}

/// The CRT controller's 25 registers are set in order, after the unlock:
/// index `k` to port 0x3d4, then register `k`'s value to port 0x3d5.
pub proof fn law_crtc_registers_in_order(last_read: u8, k: int)
    requires
        0 <= k < 25,
    ensures
        mode_13h_access(17 + 2 * k, last_read) == Some(PortAccess::Write(0x3d4, k as u8)),
        mode_13h_access(18 + 2 * k, last_read) matches Some(PortAccess::Write(port, _)) && port == 0x3d5,
{
    lemma_pair(k);
    lemma_schedule_at(last_read, last_read, 17 + 2 * k);
    lemma_schedule_at(last_read, last_read, 18 + 2 * k);
}

/// The graphics controller's nine registers are set in order: index `k`
/// to port 0x3ce, then register `k`'s value to port 0x3cf.
pub proof fn law_graphics_registers_in_order(last_read: u8, k: int)
    requires
        0 <= k < 9,
    ensures
        mode_13h_access(67 + 2 * k, last_read) == Some(PortAccess::Write(0x3ce, k as u8)),
        mode_13h_access(68 + 2 * k, last_read) matches Some(PortAccess::Write(port, _)) && port == 0x3cf,
{
    lemma_pair(k);
    lemma_schedule_at(last_read, last_read, 67 + 2 * k);
    lemma_schedule_at(last_read, last_read, 68 + 2 * k);
}

/// The attribute controller's 21 registers are set in order: a read of the
/// input status (0x3da) resets the port to take an index, then index `k`
/// and register `k`'s value both go to port 0x3c0.
pub proof fn law_attribute_registers_in_order(last_read: u8, k: int)
    requires
        0 <= k < 21,
    ensures
        mode_13h_access(85 + 3 * k, last_read) == Some(PortAccess::Read(0x3da)),
        mode_13h_access(86 + 3 * k, last_read) == Some(PortAccess::Write(0x3c0, k as u8)),
        mode_13h_access(87 + 3 * k, last_read) matches Some(PortAccess::Write(port, _)) && port == 0x3c0,
{
    lemma_triple(k);
    lemma_schedule_at(last_read, last_read, 85 + 3 * k);
    lemma_schedule_at(last_read, last_read, 86 + 3 * k);
    lemma_schedule_at(last_read, last_read, 87 + 3 * k);
}

} // verus!
