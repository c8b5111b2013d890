//! What holds of texts, numbers and the parts of lists.
use crate::control::{Breakpoint, BreakpointKey, Breakpoints, DebugControl, StepMode};
use crate::frame::StackFramePtr;
use crate::mapping::FunctionId;
use crate::pages::{frames_range, variables_range};
use crate::session::port_file_name;
use crate::text::{chars_of, decimal, text_before, to_lowercase};
use vstd::prelude::*;

verus! {

/// Whether `low` is `s`, character by character, with each `A` to `Z` replaced by the letter that
/// stands 32 places behind it.
pub open spec fn lowers(low: Seq<char>, s: Seq<char>) -> bool {
    &&& low.len() == s.len()
    &&& forall|i: int|
        #![trigger low[i]]
        #![trigger s[i]]
        0 <= i < s.len() ==> low[i] as int == (if 65 <= s[i] as int <= 90 {
            s[i] as int + 32
        } else {
            s[i] as int
        })
}

/// The lower case of an ASCII text has a lower case letter for each upper case one, and is the
/// same everywhere else.
pub proof fn law_lower_case_of_ascii(s: &str, r: String)
    requires
        vstd::utf8::is_ascii_chars(s@),
        call_ensures(to_lowercase, (s,), r),
    ensures
        lowers(r@, s@),
{
    lemma_ascii_lowers(s@);
}

/// The lower case of any other text is that of Unicode.
pub proof fn law_lower_case_beyond_ascii(s: &str, r: String)
    requires
        !vstd::utf8::is_ascii_chars(s@),
        call_ensures(to_lowercase, (s,), r),
    ensures
        r@ == crate::text::unicode_lower(s@),
{
}

/// The two descriptions of ASCII lower case agree.
pub proof fn lemma_ascii_lowers(s: Seq<char>)
    ensures
        lowers(crate::text::ascii_lower(s), s),
        vstd::utf8::is_ascii_chars(s) ==> lowers(crate::text::lower(s), s),
{
    assert forall|i: int| 0 <= i < s.len() implies #[trigger] crate::text::ascii_lower(s)[i] as int
        == (if 65 <= s[i] as int <= 90 {
        s[i] as int + 32
    } else {
        s[i] as int
    }) by {
        assert(crate::text::ascii_lower(s)[i] == crate::text::ascii_lower_char(s[i]));
    }
}

/// No lower case holds an ASCII upper case letter.
pub proof fn law_lower_case_has_no_capitals(s: &str, r: String, i: int)
    requires
        call_ensures(to_lowercase, (s,), r),
        0 <= i < r@.len(),
    ensures
        !(65 <= r@[i] as int <= 90),
{
    lemma_ascii_lowers(r@);
    assert(crate::text::ascii_lower(r@)[i] == r@[i]);
}

/// The part before a mark is the front of the text, holds no mark, and ends at the first mark or
/// with the text.
pub proof fn law_text_before_mark(s: &str, mark: char, r: String)
    requires
        call_ensures(text_before, (s, mark), r),
    ensures
        ends_before(r@, s@, mark),
{
    lemma_ends_before(s@, mark);
}

/// Whether `front` is what stands in `s` in front of the first `mark`, or all of `s` where there is
/// no mark.
pub open spec fn ends_before(front: Seq<char>, s: Seq<char>, mark: char) -> bool {
    &&& front.len() <= s.len()
    &&& forall|i: int| 0 <= i < front.len() ==> #[trigger] front[i] == s[i] && s[i] != mark
    &&& front.len() < s.len() ==> s[front.len() as int] == mark
}

/// The two descriptions of a part before a mark agree.
pub proof fn lemma_ends_before(s: Seq<char>, mark: char)
    ensures
        ends_before(crate::text::before(s, mark), s, mark),
{
    s.index_of_first_ensures(mark);
    let front = crate::text::before(s, mark);
    assert forall|i: int| 0 <= i < front.len() implies #[trigger] front[i] == s[i] && s[i] != mark by {
        if front.len() == s.len() {
            assert(s[i] == mark ==> s.contains(mark));
        }
    }
}

/// The characters of a text are those of the text.
pub proof fn law_characters(s: &str, r: Vec<char>)
    requires
        call_ensures(chars_of, (s,), r),
    ensures
        r@.len() == s@.len(),
        forall|i: int| 0 <= i < s@.len() ==> #[trigger] r@[i] == s@[i],
{
}

/// The number that a text of decimal digits stands for.
pub open spec fn number(s: Seq<char>) -> int
    decreases s.len(),
{
    if s.len() == 0 {
        0
    } else {
        number(s.drop_last()) * 10 + (s.last() as u32 - 48)
    }
}

/// Whether `s` writes the number `n`: in decimal digits only, without leading zeros.
pub open spec fn writes(s: Seq<char>, n: int) -> bool {
    &&& s.len() > 0
    &&& forall|i: int| 0 <= i < s.len() ==> 48 <= #[trigger] s[i] as u32 <= 57
    &&& number(s) == n
    &&& s[0] as u32 == 48 ==> s.len() == 1
}

/// The decimal digits of a number are read back as the number.
pub proof fn lemma_writes(n: nat)
    ensures
        writes(crate::text::digits(n), n as int),
        n > 0 ==> crate::text::digits(n)[0] as u32 != 48,
    decreases n,
{
    let s = crate::text::digits(n);
    if n < 10 {
        assert(s.drop_last() =~= Seq::<char>::empty());
        assert(number(s.drop_last()) == 0);
        assert(s.last() as u32 == n + 48);
    } else {
        let head = crate::text::digits(n / 10);
        lemma_writes(n / 10);
        assert(s.drop_last() =~= head);
        assert(s.last() as u32 == n % 10 + 48);
        assert(s[0] == head[0]);
        assert forall|i: int| 0 <= i < s.len() implies 48 <= #[trigger] s[i] as u32 <= 57 by {
            if i < head.len() {
                assert(s[i] == head[i]);
            }
        }
    }
}

/// A number in decimal is read back as the number.
pub proof fn law_decimal(n: u64, r: String)
    requires
        call_ensures(decimal, (n,), r),
    ensures
        writes(r@, n as int),
{
    lemma_writes(n as nat);
}

/// The file that tells the port is called `dap.`, the port in decimal, and `.debug`.
pub proof fn law_port_file(port: u16, r: String)
    requires
        call_ensures(port_file_name, (port,), r),
    ensures
        exists|n: Seq<char>| #[trigger] writes(n, port as int) && r@ == "dap."@ + n + ".debug"@,
{
    lemma_writes(port as nat);
}

/// Without a number of levels, the frames from the start on are asked for. They can be had exactly
/// where the start lies within the list.
pub proof fn law_frames_to_the_end(start: Option<i64>, len: usize, r: Option<(usize, usize)>)
    requires
        len <= i64::MAX,
        call_ensures(frames_range, (start, None::<i64>, len), r),
    ensures
        start is None ==> r == Some((0usize, len)),
        start matches Some(n) ==> if 0 <= n <= len {
            r == Some((n as usize, len))
        } else {
            r is None
        },
{
}

/// With a number of levels, so many frames from the start on are asked for, or as many as there
/// are. None at all from the front on stands for all of them.
pub proof fn law_frames_page(start: i64, levels: i64, len: usize, r: Option<(usize, usize)>)
    requires
        len <= i64::MAX,
        0 <= levels,
        call_ensures(frames_range, (Some(start), Some(levels), len), r),
    ensures
        !(0 <= start <= len) ==> r is None,
        0 <= start <= len ==> (r matches Some((from, to)) && from == start && to <= len && (
        if start == 0 && levels == 0 {
            to == len
        } else if start + levels <= len {
            to == start + levels
        } else {
            to == len
        })),
{
}

/// Where no start is given, the frames are those from 0 on.
pub proof fn law_frames_from_front(
    levels: Option<i64>,
    len: usize,
    r: Option<(usize, usize)>,
    zero: Option<(usize, usize)>,
)
    requires
        call_ensures(frames_range, (None::<i64>, levels, len), r),
        call_ensures(frames_range, (Some(0i64), levels, len), zero),
    ensures
        r == zero,
{
}

/// A negative number of levels that outweighs the start stands for all frames from the start on;
/// one that does not is out of range.
pub proof fn law_negative_levels(start: i64, levels: i64, len: usize, r: Option<(usize, usize)>)
    requires
        len <= i64::MAX,
        levels < 0,
        call_ensures(frames_range, (Some(start), Some(levels), len), r),
    ensures
        r is Some <==> 0 <= start <= len && start + levels < 0,
        r matches Some((from, to)) ==> from == start && to == len,
{
}

/// Without a count, or with a count of 0, the variables from the start on are asked for. They can
/// be had exactly where the start lies within the list.
pub proof fn law_variables_to_the_end(
    start: Option<i64>,
    count: Option<i64>,
    len: usize,
    r: Option<(usize, usize)>,
)
    requires
        len <= i64::MAX,
        count is None || count == Some(0i64),
        call_ensures(variables_range, (start, count, len), r),
    ensures
        start is None ==> r == Some((0usize, len)),
        start matches Some(n) ==> if 0 <= n <= len {
            r == Some((n as usize, len))
        } else {
            r is None
        },
{
}

/// With a count, so many variables from the start on are asked for, or as many as there are.
pub proof fn law_variables_page(start: i64, count: i64, len: usize, r: Option<(usize, usize)>)
    requires
        len <= i64::MAX,
        0 < count,
        call_ensures(variables_range, (Some(start), Some(count), len), r),
    ensures
        !(0 <= start <= len) ==> r is None,
        0 <= start <= len ==> (r matches Some((from, to)) && from == start && (if start + count
            <= len {
            to == start + count
        } else {
            to == len
        })),
{
}

/// Where no start is given, the variables are those from 0 on.
pub proof fn law_variables_from_front(
    count: Option<i64>,
    len: usize,
    r: Option<(usize, usize)>,
    zero: Option<(usize, usize)>,
)
    requires
        call_ensures(variables_range, (None::<i64>, count, len), r),
        call_ensures(variables_range, (Some(0i64), count, len), zero),
    ensures
        r == zero,
{
}

/// A negative count that outweighs the start stands for all variables from the start on; one that
/// does not is out of range.
pub proof fn law_negative_count(start: i64, count: i64, len: usize, r: Option<(usize, usize)>)
    requires
        len <= i64::MAX,
        count < 0,
        call_ensures(variables_range, (Some(start), Some(count), len), r),
    ensures
        r is Some <==> 0 <= start <= len && start + count < 0,
        r matches Some((from, to)) ==> from == start && to == len,
{
}

/// The address of a frame is the one it was made with, before and after a call.
pub proof fn law_frame_address(addr: usize, pre: usize, post: usize)
    requires
        call_ensures(StackFramePtr::as_ptr, (&StackFramePtr::PreCall(addr),), pre),
        call_ensures(StackFramePtr::as_ptr, (&StackFramePtr::PostCall(addr),), post),
    ensures
        pre == addr,
        post == addr,
{
}

/// Before a call the instruction lies one opcode back; after it, one opcode and the call further.
pub proof fn law_call_offsets(addr: usize, opcode: isize, call: isize, pre: isize, post: isize)
    requires
        call_ensures(StackFramePtr::call_offset, (&StackFramePtr::PreCall(addr), opcode, call), pre),
        call_ensures(
            StackFramePtr::call_offset,
            (&StackFramePtr::PostCall(addr), opcode, call),
            post,
        ),
    ensures
        pre + opcode == 0,
        post == pre - call - opcode,
{
}

/// A function is known by its own name and that of its class, or by what stands for no class.
pub proof fn law_function_names(parent: u64, name: u64, undefined: u64, in_class: FunctionId, free: FunctionId)
    requires
        call_ensures(FunctionId::from_func, (Some(parent), name, undefined), in_class),
        call_ensures(FunctionId::from_func, (None::<u64>, name, undefined), free),
    ensures
        in_class.parent == parent && in_class.name == name,
        free.parent == undefined && free.name == name,
{
}

/// The codes of the modes.
pub proof fn law_step_mode_codes(mode: StepMode, code: u8)
    requires
        call_ensures(StepMode::code, (mode,), code),
    ensures
        mode is NoStep <==> code == 0,
        mode is StepOut <==> code == 1,
        mode is StepOver <==> code == 2,
        mode is StepIn <==> code == 3,
        crate::control::step_mode_of(code) == Some(mode),
{
}

/// No other code than those of the modes stands for a mode.
pub proof fn law_other_codes(code: u8)
    ensures
        crate::control::step_mode_of(code) is None <==> code > 3,
{
}

/// A breakpoint is found exactly where one is set.
pub proof fn law_breakpoint_found(b: &Breakpoints, key: BreakpointKey, r: Option<Breakpoint>)
    requires
        call_ensures(Breakpoints::get, (b, &key), r),
    ensures
        r is Some <==> b@.contains(key),
{
}

/// To set a breakpoint sets this one, and no other changes.
pub proof fn law_breakpoint_set(b: &mut Breakpoints, key: BreakpointKey, other: BreakpointKey)
    requires
        call_ensures(Breakpoints::add, (b, key), ()),
    ensures
        final(b)@.contains(key),
        other != key ==> final(b)@.contains(other) == old(b)@.contains(other),
{
}

/// To drop the breakpoints of a function drops all of them, and no other.
pub proof fn law_breakpoints_dropped(b: &mut Breakpoints, func: FunctionId, key: BreakpointKey)
    requires
        call_ensures(Breakpoints::unregister_by_fn, (b, func), ()),
    ensures
        final(b)@.contains(key) <==> old(b)@.contains(key) && key.func != func,
{
}

/// To drop all breakpoints leaves none.
pub proof fn law_breakpoints_cleared(b: &mut Breakpoints, key: BreakpointKey)
    requires
        call_ensures(Breakpoints::clear, (b,), ()),
    ensures
        !final(b)@.contains(key),
{
}

/// The mode that is set is the one that is read, and nothing else changes.
pub proof fn law_step_mode_reads_back(control: &mut DebugControl, mode: StepMode)
    requires
        call_ensures(DebugControl::set_step_mode, (control, mode), ()),
    ensures
        forall|r: StepMode|
            call_ensures(DebugControl::get_step_mode, (&*final(control),), r) ==> r == mode,
        final(control)@.functions == old(control)@.functions,
        final(control)@.breakpoints == old(control)@.breakpoints,
        final(control)@.last_break_frame == old(control)@.last_break_frame,
{
}

/// The frame of the last stop that is set is the one that is read, where it is not null, and
/// nothing else changes.
pub proof fn law_last_frame_reads_back(control: &mut DebugControl, frame: usize)
    requires
        call_ensures(DebugControl::set_last_break_frame, (control, frame), ()),
    ensures
        forall|r: Option<usize>|
            call_ensures(DebugControl::get_last_break_frame, (&*final(control),), r) ==> (r
                is Some <==> frame != 0) && (r matches Some(addr) ==> addr == frame),
        final(control)@.functions == old(control)@.functions,
        final(control)@.breakpoints == old(control)@.breakpoints,
        final(control)@.step_mode == old(control)@.step_mode,
{
}

/// A reset ends every step, forgets the last stop and all breakpoints, and keeps the functions.
pub proof fn law_reset(control: &mut DebugControl, key: BreakpointKey)
    requires
        call_ensures(DebugControl::reset, (control,), ()),
    ensures
        final(control)@.step_mode is NoStep,
        final(control)@.last_break_frame is None,
        !final(control)@.breakpoints.contains(key),
        final(control)@.functions == old(control)@.functions,
{
}

} // verus!
