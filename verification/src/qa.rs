//! Quality-assurance checks on translated segments: inline tags, numbers,
//! untranslated targets, copies of the source and forbidden terminology.

use vstd::prelude::*;
use crate::order::{lemma_is_sorted_list, sort_strings, sorted_list};
use crate::text::{
    blank, chars_eq, chars_of, contains_chars, contains_seq, copy_range, debug_list,
    format_debug_list, is_blank, lowercase, push_str, string_of, strs, to_lowercase, trim,
    trim_chars,
};

verus! {

/// Body of a quality-check request.
pub struct QaCheckRequest {
    pub project_id: String,
    pub tb_id: Option<String>,
}

/// One finding of the quality check.
pub struct QaIssue {
    pub segment_id: String,
    pub check_type: String,
    pub severity: String,
    pub message: String,
}

/// The text of a [`QaIssue`].
pub struct IssueView {
    pub segment_id: Seq<char>,
    pub check_type: Seq<char>,
    pub severity: Seq<char>,
    pub message: Seq<char>,
}

impl View for QaIssue {
    type V = IssueView;

    open spec fn view(&self) -> IssueView {
        IssueView {
            segment_id: self.segment_id@,
            check_type: self.check_type@,
            severity: self.severity@,
            message: self.message@,
        }
    }
}

pub open spec fn opt_issue(o: Option<QaIssue>) -> Option<IssueView> {
    match o {
        Some(i) => Some(i@),
        None => None,
    }
}

pub open spec fn issue_seq(o: Option<IssueView>) -> Seq<IssueView> {
    match o {
        Some(i) => seq![i],
        None => seq![],
    }
}

pub open spec fn issues_view(v: Seq<QaIssue>) -> Seq<IssueView> {
    v.map_values(|i: QaIssue| i@)
}

fn make_issue(id: &str, check_type: &str, severity: &str, message: String) -> (r: QaIssue)
    ensures
        r@ == (IssueView {
            segment_id: id@,
            check_type: check_type@,
            severity: severity@,
            message: message@,
        }),
{
    QaIssue {
        segment_id: String::from_str(id),
        check_type: String::from_str(check_type),
        severity: String::from_str(severity),
        message,
    }
}

// ───────────────────────────── inline tags ─────────────────────────────

/// State of the tag scanner after a prefix of the text.
pub struct TagScan {
    pub in_tag: bool,
    pub buf: Seq<char>,
    pub tags: Seq<Seq<char>>,
}

/// One character of the tag scanner: `<` opens a tag, `>` inside a tag
/// closes it and records it, other characters inside a tag are kept.
pub open spec fn tag_step(st: TagScan, c: char) -> TagScan {
    if c == '<' {
        TagScan { in_tag: true, buf: seq![c], tags: st.tags }
    } else if c == '>' && st.in_tag {
        TagScan { in_tag: false, buf: st.buf.push(c), tags: st.tags.push(st.buf.push(c)) }
    } else if st.in_tag {
        TagScan { in_tag: true, buf: st.buf.push(c), tags: st.tags }
    } else {
        st
    }
}

pub open spec fn tag_scan(s: Seq<char>) -> TagScan
    decreases s.len(),
{
    if s.len() == 0 {
        TagScan { in_tag: false, buf: seq![], tags: seq![] }
    } else {
        tag_step(tag_scan(s.drop_last()), s.last())
    }
}

/// The inline tags of a text, in order, each from its `<` to its `>`.
pub open spec fn tags_of(s: Seq<char>) -> Seq<Seq<char>> {
    tag_scan(s).tags
}

/// The inline tags (`<...>`) of `text`, in order of appearance.
pub fn extract_tags(text: &str) -> (r: Vec<String>)
    ensures
        strs(r@) == tags_of(text@),
{
    let cs = chars_of(text);
    let mut tags: Vec<String> = Vec::new();
    let mut in_tag = false;
    let mut buf: Vec<char> = Vec::new();
    let mut i: usize = 0;
    assert(cs@.take(0) =~= Seq::<char>::empty());
    assert(strs(tags@) =~= Seq::<Seq<char>>::empty());
    assert(buf@ =~= Seq::<char>::empty());
    while i < cs.len()
        invariant
            i <= cs.len(),
            cs@ == text@,
            tag_scan(cs@.take(i as int)) == (TagScan {
                in_tag: in_tag,
                buf: buf@,
                tags: strs(tags@),
            }),
        decreases cs.len() - i,
    {
        let ch = cs[i];
        assert(cs@.take(i + 1).drop_last() =~= cs@.take(i as int));
        let ghost old_tags = strs(tags@);
        if ch == '<' {
            in_tag = true;
            buf = Vec::new();
            buf.push(ch);
            assert(buf@ =~= seq![ch]);
        } else if ch == '>' && in_tag {
            buf.push(ch);
            let t = string_of(&buf);
            tags.push(t);
            assert(strs(tags@) =~= old_tags.push(buf@));
            in_tag = false;
        } else if in_tag {
            buf.push(ch);
        }
        i = i + 1;
    }
    assert(cs@.take(cs.len() as int) =~= cs@);
    tags
}

/// Element-wise equality of two string lists.
fn string_lists_eq(a: &Vec<String>, b: &Vec<String>) -> (r: bool)
    ensures
        r == (strs(a@) == strs(b@)),
{
    if a.len() != b.len() {
        assert(strs(a@).len() != strs(b@).len());
        return false;
    }
    let mut i: usize = 0;
    while i < a.len()
        invariant
            i <= a.len(),
            a.len() == b.len(),
            forall|k: int| 0 <= k < i ==> a@[k]@ == b@[k]@,
        decreases a.len() - i,
    {
        let x = chars_of(a[i].as_str());
        let y = chars_of(b[i].as_str());
        if !chars_eq(&x, &y) {
            assert(strs(a@)[i as int] != strs(b@)[i as int]);
            return false;
        }
        i = i + 1;
    }
    assert(strs(a@) =~= strs(b@));
    true
}

// ───────────────────────────── numbers ─────────────────────────────

pub open spec fn is_digit(c: char) -> bool {
    '0' <= c <= '9'
}

pub open spec fn is_sep(c: char) -> bool {
    c == '.' || c == ','
}

/// `s` without trailing `.` and `,` characters.
pub open spec fn strip_seps(s: Seq<char>) -> Seq<char>
    decreases s.len(),
{
    if s.len() > 0 && is_sep(s.last()) {
        strip_seps(s.drop_last())
    } else {
        s
    }
}

/// State of the number scanner after a prefix of the text.
pub struct NumScan {
    pub buf: Seq<char>,
    pub prev_digit: bool,
    pub nums: Set<Seq<char>>,
}

/// The numbers found so far, with the pending one (if any) added.
pub open spec fn num_flush(st: NumScan) -> Set<Seq<char>> {
    if st.buf.len() > 0 && strip_seps(st.buf).len() > 0 {
        st.nums.insert(strip_seps(st.buf))
    } else {
        st.nums
    }
}

/// One character of the number scanner: digits extend the current number,
/// `.` and `,` extend it once a digit has been seen, anything else ends it.
pub open spec fn num_step(st: NumScan, c: char) -> NumScan {
    if is_digit(c) {
        NumScan { buf: st.buf.push(c), prev_digit: true, nums: st.nums }
    } else if is_sep(c) && st.prev_digit {
        NumScan { buf: st.buf.push(c), prev_digit: st.prev_digit, nums: st.nums }
    } else {
        NumScan { buf: seq![], prev_digit: false, nums: num_flush(st) }
    }
}

pub open spec fn num_scan(s: Seq<char>) -> NumScan
    decreases s.len(),
{
    if s.len() == 0 {
        NumScan { buf: seq![], prev_digit: false, nums: Set::empty() }
    } else {
        num_step(num_scan(s.drop_last()), s.last())
    }
}

/// The set of numbers written in a text: runs of ASCII digits with `.` and
/// `,` inside, trailing separators dropped.
pub open spec fn numbers_of(s: Seq<char>) -> Set<Seq<char>> {
    num_flush(num_scan(s))
}

/// A set of number strings.
pub struct NumberSet {
    items: Vec<String>,
}

impl View for NumberSet {
    type V = Set<Seq<char>>;

    closed spec fn view(&self) -> Set<Seq<char>> {
        strs(self.items@).to_set()
    }
}

impl NumberSet {
    /// No number is held twice.
    pub closed spec fn wf(&self) -> bool {
        forall|i: int, j: int|
            0 <= i < j < self.items@.len() ==> self.items@[i]@ != self.items@[j]@
    }

    /// Whether `s` is one of the numbers.
    pub fn contains(&self, s: &str) -> (r: bool)
        ensures
            r == self@.contains(s@),
    {
        let target = chars_of(s);
        let mut i: usize = 0;
        while i < self.items.len()
            invariant
                i <= self.items.len(),
                target@ == s@,
                forall|k: int| 0 <= k < i ==> self.items@[k]@ != s@,
            decreases self.items.len() - i,
        {
            let c = chars_of(self.items[i].as_str());
            if chars_eq(&c, &target) {
                assert(strs(self.items@)[i as int] == s@);
                return true;
            }
            i = i + 1;
        }
        proof {
            if strs(self.items@).to_set().contains(s@) {
                let k = choose|k: int| 0 <= k < strs(self.items@).len() && strs(self.items@)[k] == s@;
                assert(self.items@[k]@ == s@);
            }
        }
        false
    }

    /// The number of distinct numbers.
    pub fn len(&self) -> (r: usize)
        requires
            self.wf(),
        ensures
            r == self@.len(),
    {
        proof {
            self.lemma_len();
        }
        self.items.len()
    }

    proof fn lemma_len(&self)
        requires
            self.wf(),
        ensures
            self@.len() == self.items@.len(),
    {
        let v = strs(self.items@);
        assert forall|i: int, j: int| 0 <= i < j < v.len() implies v[i] != v[j] by {}
        assert(v.no_duplicates());
        v.unique_seq_to_set();
    }

    fn insert(&mut self, s: String)
        requires
            old(self).wf(),
        ensures
            final(self).wf(),
            final(self)@ == old(self)@.insert(s@),
    {
        if !self.contains(s.as_str()) {
            let ghost before = strs(self.items@);
            self.items.push(s);
            proof {
                assert(strs(self.items@) =~= before.push(s@));
                assert(strs(self.items@).to_set() =~= before.to_set().insert(s@)) by {
                    assert forall|x: Seq<char>| strs(self.items@).to_set().contains(x) <==> before.to_set().insert(s@).contains(x) by {
                        if strs(self.items@).contains(x) {
                            let k = choose|k: int| 0 <= k < strs(self.items@).len() && strs(self.items@)[k] == x;
                            if k < before.len() {
                                assert(before[k] == x);
                            }
                        }
                        if before.contains(x) {
                            let k = choose|k: int| 0 <= k < before.len() && before[k] == x;
                            assert(strs(self.items@)[k] == x);
                        }
                        if x == s@ {
                            assert(strs(self.items@)[before.len() as int] == x);
                        }
                    }
                }
                assert forall|i: int, j: int| 0 <= i < j < self.items@.len() implies self.items@[i]@ != self.items@[j]@ by {
                    if j == before.len() {
                        assert(before[i] == self.items@[i]@);
                        assert(before.contains(self.items@[i]@));
                    }
                }
            }
        } else {
            assert(old(self)@.insert(s@) =~= old(self)@);
        }
    }

    /// The members of `self` that `other` lacks, as a list without repeats.
    fn minus(&self, other: &NumberSet) -> (r: Vec<String>)
        requires
            self.wf(),
        ensures
            strs(r@).to_set() == self@.difference(other@),
            forall|i: int, j: int| 0 <= i < j < r@.len() ==> r@[i]@ != r@[j]@,
    {
        let mut out: Vec<String> = Vec::new();
        let mut i: usize = 0;
        while i < self.items.len()
            invariant
                i <= self.items.len(),
                self.wf(),
                strs(out@).to_set() == strs(self.items@.take(i as int)).to_set().difference(other@),
                forall|a: int, b: int| 0 <= a < b < out@.len() ==> out@[a]@ != out@[b]@,
                forall|a: int| 0 <= a < out@.len() ==> strs(self.items@.take(i as int)).contains(#[trigger] out@[a]@),
            decreases self.items.len() - i,
        {
            let x = self.items[i].clone();
            let ghost before = strs(out@);
            let ghost prefix = strs(self.items@.take(i as int));
            let ghost next = strs(self.items@.take(i + 1));
            assert(next =~= prefix.push(x@));
            if !other.contains(x.as_str()) {
                out.push(x);
                proof {
                    assert(strs(out@) =~= before.push(x@));
                    assert forall|a: int, b: int| 0 <= a < b < out@.len() implies out@[a]@ != out@[b]@ by {
                        if b == before.len() {
                            assert(prefix.contains(out@[a]@));
                            let k = choose|k: int| 0 <= k < prefix.len() && prefix[k] == out@[a]@;
                            assert(self.items@[k]@ == out@[a]@);
                            assert(self.items@[i as int]@ == x@);
                        }
                    }
                    assert forall|a: int| 0 <= a < out@.len() implies next.contains(#[trigger] out@[a]@) by {
                        if a < before.len() {
                            assert(prefix.contains(out@[a]@));
                            let k = choose|k: int| 0 <= k < prefix.len() && prefix[k] == out@[a]@;
                            assert(next[k] == out@[a]@);
                        } else {
                            assert(next[i as int] == x@);
                        }
                    }
                }
            } else {
                proof {
                    assert forall|a: int| 0 <= a < out@.len() implies next.contains(#[trigger] out@[a]@) by {
                        assert(prefix.contains(out@[a]@));
                        let k = choose|k: int| 0 <= k < prefix.len() && prefix[k] == out@[a]@;
                        assert(next[k] == out@[a]@);
                    }
                }
            }
            proof {
                assert forall|y: Seq<char>| strs(out@).to_set().contains(y) <==> next.to_set().difference(other@).contains(y) by {
                    if strs(out@).to_set().contains(y) {
                        let k = choose|k: int| 0 <= k < strs(out@).len() && strs(out@)[k] == y;
                        if k < before.len() {
                            assert(before[k] == y);
                            assert(before.to_set().contains(y));
                            assert(prefix.to_set().contains(y));
                            let m = choose|m: int| 0 <= m < prefix.len() && prefix[m] == y;
                            assert(next[m] == y);
                        } else {
                            assert(next[i as int] == y);
                        }
                    }
                    if next.to_set().difference(other@).contains(y) {
                        let m = choose|m: int| 0 <= m < next.len() && next[m] == y;
                        if m < i {
                            assert(prefix[m] == y);
                            assert(prefix.to_set().contains(y));
                            assert(before.to_set().contains(y));
                            let k = choose|k: int| 0 <= k < before.len() && before[k] == y;
                            assert(strs(out@)[k] == y);
                        } else {
                            assert(strs(out@)[before.len() as int] == y);
                        }
                    }
                }
                assert(strs(out@).to_set() =~= next.to_set().difference(other@));
            }
            i = i + 1;
        }
        assert(self.items@.take(self.items.len() as int) =~= self.items@);
        out
    }
}

fn strip_seps_chars(buf: &Vec<char>) -> (r: Vec<char>)
    ensures
        r@ == strip_seps(buf@),
{
    let mut j = buf.len();
    assert(buf@.take(j as int) =~= buf@);
    while j > 0 && (buf[j - 1] == '.' || buf[j - 1] == ',')
        invariant
            j <= buf.len(),
            strip_seps(buf@) == strip_seps(buf@.take(j as int)),
        decreases j,
    {
        assert(buf@.take(j as int).drop_last() =~= buf@.take(j - 1));
        j = j - 1;
    }
    let r = copy_range(buf, 0, j);
    assert(r@ =~= buf@.take(j as int));
    r
}

/// The numbers written in `text` (see [`numbers_of`]).
pub fn extract_numbers(text: &str) -> (r: NumberSet)
    ensures
        r.wf(),
        r@ == numbers_of(text@),
{
    let cs = chars_of(text);
    let mut nums = NumberSet { items: Vec::new() };
    let mut buf: Vec<char> = Vec::new();
    let mut prev_was_digit = false;
    let mut i: usize = 0;
    assert(nums@ =~= Set::<Seq<char>>::empty());
    while i < cs.len()
        invariant
            i <= cs.len(),
            cs@ == text@,
            nums.wf(),
            num_scan(cs@.take(i as int)) == (NumScan {
                buf: buf@,
                prev_digit: prev_was_digit,
                nums: nums@,
            }),
        decreases cs.len() - i,
    {
        let ch = cs[i];
        assert(cs@.take(i + 1).drop_last() =~= cs@.take(i as int));
        if '0' <= ch && ch <= '9' {
            buf.push(ch);
            prev_was_digit = true;
        } else if (ch == '.' || ch == ',') && prev_was_digit {
            buf.push(ch);
        } else {
            if buf.len() > 0 {
                let trimmed = strip_seps_chars(&buf);
                if trimmed.len() > 0 {
                    nums.insert(string_of(&trimmed));
                }
                buf = Vec::new();
            }
            assert(buf@ =~= Seq::<char>::empty());
            prev_was_digit = false;
        }
        i = i + 1;
    }
    assert(cs@.take(cs.len() as int) =~= cs@);
    if buf.len() > 0 {
        let trimmed = strip_seps_chars(&buf);
        if trimmed.len() > 0 {
            nums.insert(string_of(&trimmed));
        }
    }
    nums
}

// ───────────────────────────── checks ─────────────────────────────

/// The tag check: tags must appear identically, in the same order.
pub open spec fn tag_issue(id: Seq<char>, source: Seq<char>, target: Seq<char>) -> Option<
    IssueView,
> {
    if tags_of(source) != tags_of(target) {
        Some(
            IssueView {
                segment_id: id,
                check_type: "TagMismatch"@,
                severity: "Error"@,
                message: "태그 불일치: 소스 "@ + debug_list(tags_of(source)) + " ≠ 타겟 "@
                    + debug_list(tags_of(target)),
            },
        )
    } else {
        None
    }
}

pub fn check_tag_mismatch(id: &str, source: &str, target: &str) -> (r: Option<QaIssue>)
    ensures
        opt_issue(r) == tag_issue(id@, source@, target@),
{
    let src_tags = extract_tags(source);
    let tgt_tags = extract_tags(target);
    if !string_lists_eq(&src_tags, &tgt_tags) {
        let mut msg = String::from_str("태그 불일치: 소스 ");
        let a = format_debug_list(&src_tags);
        push_str(&mut msg, a.as_str());
        push_str(&mut msg, " ≠ 타겟 ");
        let b = format_debug_list(&tgt_tags);
        push_str(&mut msg, b.as_str());
        Some(make_issue(id, "TagMismatch", "Error", msg))
    } else {
        None
    }
}

/// The message of the number check, listing the numbers each side lacks,
/// each list in increasing order.
pub open spec fn number_message(src: Set<Seq<char>>, tgt: Set<Seq<char>>) -> Seq<char> {
    let missing = sorted_list(src.difference(tgt));
    let extra = sorted_list(tgt.difference(src));
    let p1 = "소스에만 있음: "@ + debug_list(missing);
    let p2 = "타겟에만 있음: "@ + debug_list(extra);
    let parts = if missing.len() > 0 && extra.len() > 0 {
        p1 + ", "@ + p2
    } else if missing.len() > 0 {
        p1
    } else {
        p2
    };
    "숫자 불일치 — "@ + parts
}

/// The number check: on a non-blank target, the sets of numbers of both
/// sides must agree.
pub open spec fn number_issue(id: Seq<char>, source: Seq<char>, target: Seq<char>) -> Option<
    IssueView,
> {
    if is_blank(target) {
        None
    } else if numbers_of(source) != numbers_of(target) {
        Some(
            IssueView {
                segment_id: id,
                check_type: "NumberMismatch"@,
                severity: "Warning"@,
                message: number_message(numbers_of(source), numbers_of(target)),
            },
        )
    } else {
        None
    }
}

pub fn check_number_mismatch(id: &str, source: &str, target: &str) -> (r: Option<QaIssue>)
    ensures
        opt_issue(r) == number_issue(id@, source@, target@),
{
    if blank(target) {
        return None;
    }
    let src_nums = extract_numbers(source);
    let tgt_nums = extract_numbers(target);
    let missing0 = src_nums.minus(&tgt_nums);
    let extra0 = tgt_nums.minus(&src_nums);
    let missing = sort_strings(missing0);
    let extra = sort_strings(extra0);
    let ghost sv = src_nums@;
    let ghost tv = tgt_nums@;
    proof {
        lemma_is_sorted_list(strs(missing@));
        lemma_is_sorted_list(strs(extra@));
        assert(strs(missing@).to_set() == sv.difference(tv));
        assert(strs(extra@).to_set() == tv.difference(sv));
    }
    if missing.len() == 0 && extra.len() == 0 {
        proof {
            assert forall|x: Seq<char>| sv.contains(x) <==> tv.contains(x) by {
                if sv.contains(x) && !tv.contains(x) {
                    assert(sv.difference(tv).contains(x));
                    assert(strs(missing@).to_set().contains(x));
                    assert(strs(missing@).contains(x));
                }
                if tv.contains(x) && !sv.contains(x) {
                    assert(tv.difference(sv).contains(x));
                    assert(strs(extra@).to_set().contains(x));
                    assert(strs(extra@).contains(x));
                }
            }
            assert(sv =~= tv);
        }
        return None;
    }
    proof {
        if sv == tv {
            if missing@.len() > 0 {
                assert(strs(missing@).contains(strs(missing@)[0]));
                assert(sv.difference(tv).contains(strs(missing@)[0]));
            } else {
                assert(strs(extra@).contains(strs(extra@)[0]));
                assert(tv.difference(sv).contains(strs(extra@)[0]));
            }
        }
    }
    let mut parts = String::new();
    if missing.len() > 0 {
        push_str(&mut parts, "소스에만 있음: ");
        let a = format_debug_list(&missing);
        push_str(&mut parts, a.as_str());
    }
    if extra.len() > 0 {
        if missing.len() > 0 {
            push_str(&mut parts, ", ");
        }
        push_str(&mut parts, "타겟에만 있음: ");
        let b = format_debug_list(&extra);
        push_str(&mut parts, b.as_str());
    }
    let mut msg = String::from_str("숫자 불일치 — ");
    push_str(&mut msg, parts.as_str());
    proof {
        let m = strs(missing@);
        let e = strs(extra@);
        assert(sorted_list(sv.difference(tv)) == m);
        assert(sorted_list(tv.difference(sv)) == e);
        assert(sv != tv);
        assert(sv == numbers_of(source@));
        assert(tv == numbers_of(target@));
        if m.len() > 0 && e.len() > 0 {
            assert(parts@ =~= "소스에만 있음: "@ + debug_list(m) + ", "@ + "타겟에만 있음: "@
                + debug_list(e));
        } else if m.len() > 0 {
            assert(parts@ =~= "소스에만 있음: "@ + debug_list(m));
        } else {
            assert(parts@ =~= "타겟에만 있음: "@ + debug_list(e));
        }
    }
    assert(msg@ == number_message(sv, tv));
    Some(make_issue(id, "NumberMismatch", "Warning", msg))
}

/// The untranslated check: a blank target or the status `untranslated`.
pub open spec fn untranslated_issue(id: Seq<char>, target: Seq<char>, status: Seq<char>) -> Option<
    IssueView,
> {
    if is_blank(target) || status == "untranslated"@ {
        Some(
            IssueView {
                segment_id: id,
                check_type: "Untranslated"@,
                severity: "Warning"@,
                message: "미번역 세그먼트"@,
            },
        )
    } else {
        None
    }
}

pub fn check_untranslated(id: &str, target: &str, status: &str) -> (r: Option<QaIssue>)
    ensures
        opt_issue(r) == untranslated_issue(id@, target@, status@),
{
    let st = chars_of(status);
    let lit = chars_of("untranslated");
    if blank(target) || chars_eq(&st, &lit) {
        Some(make_issue(id, "Untranslated", "Warning", String::from_str("미번역 세그먼트")))
    } else {
        None
    }
}

/// The copy check: source and target are non-blank and equal once trimmed.
pub open spec fn same_issue(id: Seq<char>, source: Seq<char>, target: Seq<char>) -> Option<
    IssueView,
> {
    if trim(source).len() > 0 && trim(target).len() > 0 && trim(source) == trim(target) {
        Some(
            IssueView {
                segment_id: id,
                check_type: "SourceEqualsTarget"@,
                severity: "Warning"@,
                message: "소스와 타겟이 동일함"@,
            },
        )
    } else {
        None
    }
}

pub fn check_source_equals_target(id: &str, source: &str, target: &str) -> (r: Option<QaIssue>)
    ensures
        opt_issue(r) == same_issue(id@, source@, target@),
{
    let s = chars_of(source);
    let t = chars_of(target);
    let src = trim_chars(&s);
    let tgt = trim_chars(&t);
    if src.len() > 0 && tgt.len() > 0 && chars_eq(&src, &tgt) {
        Some(make_issue(id, "SourceEqualsTarget", "Warning", String::from_str("소스와 타겟이 동일함")))
    } else {
        None
    }
}

// ───────────────────────────── forbidden terms ─────────────────────────────

/// Findings of forbidden terms (case-insensitive) in a non-blank target, one
/// per listed term that occurs, in the order of the list.
pub open spec fn forbidden_issues(id: Seq<char>, target: Seq<char>, terms: Seq<Seq<char>>) -> Seq<
    IssueView,
>
    decreases terms.len(),
{
    if terms.len() == 0 || is_blank(target) {
        seq![]
    } else {
        let rest = forbidden_issues(id, target, terms.drop_last());
        let term = terms.last();
        let tl = lowercase(term);
        if tl.len() > 0 && contains_seq(lowercase(target), tl) {
            rest.push(
                IssueView {
                    segment_id: id,
                    check_type: "ForbiddenTerm"@,
                    severity: "Error"@,
                    message: "금지 용어 사용: '"@ + term + "'"@,
                },
            )
        } else {
            rest
        }
    }
}

/// Whether the request asks for forbidden-term checking: a term base id that
/// is given but empty turns it off.
pub open spec fn uses_forbidden_terms(tb_id: Option<Seq<char>>) -> bool {
    !(tb_id matches Some(t) && t.len() == 0)
}

impl QaCheckRequest {
    pub fn checks_forbidden_terms(&self) -> (r: bool)
        ensures
            r == uses_forbidden_terms(
                match self.tb_id {
                    Some(t) => Some(t@),
                    None => None,
                },
            ),
    {
        match &self.tb_id {
            Some(t) => {
                let c = chars_of(t.as_str());
                c.len() != 0
            },
            None => true,
        }
    }
}

/// All findings of one segment, in the order: tags, numbers, untranslated,
/// copy, forbidden terms.
pub open spec fn segment_issues(
    id: Seq<char>,
    source: Seq<char>,
    target: Seq<char>,
    status: Seq<char>,
    terms: Seq<Seq<char>>,
) -> Seq<IssueView> {
    issue_seq(tag_issue(id, source, target)) + issue_seq(number_issue(id, source, target))
        + issue_seq(untranslated_issue(id, target, status)) + issue_seq(
        same_issue(id, source, target),
    ) + forbidden_issues(id, target, terms)
}

/// A segment as the check reads it: id, source, target, status.
pub open spec fn row_issues(row: (String, String, String, String), terms: Seq<Seq<char>>) -> Seq<
    IssueView,
> {
    segment_issues(row.0@, row.1@, row.2@, row.3@, terms)
}

/// Findings of all segments, segment by segment.
pub open spec fn all_issues(rows: Seq<(String, String, String, String)>, terms: Seq<Seq<char>>) -> Seq<
    IssueView,
>
    decreases rows.len(),
{
    if rows.len() == 0 {
        seq![]
    } else {
        all_issues(rows.drop_last(), terms) + row_issues(rows.last(), terms)
    }
}

fn push_opt(out: &mut Vec<QaIssue>, o: Option<QaIssue>)
    ensures
        issues_view(final(out)@) == issues_view(old(out)@) + issue_seq(opt_issue(o)),
{
    match o {
        Some(i) => {
            let ghost before = issues_view(out@);
            let ghost iv = i@;
            out.push(i);
            assert(issues_view(out@) =~= before + seq![iv]);
        },
        None => {
            assert(issues_view(out@) =~= issues_view(out@) + Seq::<IssueView>::empty());
        },
    }
}

fn push_forbidden(out: &mut Vec<QaIssue>, id: &str, target: &str, terms: &Vec<String>)
    ensures
        issues_view(final(out)@) == issues_view(old(out)@) + forbidden_issues(
            id@,
            target@,
            strs(terms@),
        ),
{
    if blank(target) {
        assert(forbidden_issues(id@, target@, strs(terms@)) =~= Seq::<IssueView>::empty());
        assert(issues_view(out@) =~= issues_view(out@) + Seq::<IssueView>::empty());
        return ;
    }
    let tl_s = to_lowercase(target);
    let tgt_lower = chars_of(tl_s.as_str());
    let ghost base = issues_view(out@);
    let mut k: usize = 0;
    assert(strs(terms@).take(0) =~= Seq::<Seq<char>>::empty());
    assert(issues_view(out@) =~= base + forbidden_issues(id@, target@, strs(terms@).take(0)));
    while k < terms.len()
        invariant
            k <= terms.len(),
            !is_blank(target@),
            tgt_lower@ == lowercase(target@),
            issues_view(out@) == base + forbidden_issues(id@, target@, strs(terms@).take(k as int)),
        decreases terms.len() - k,
    {
        let term = &terms[k];
        let ghost prev = strs(terms@).take(k as int);
        let ghost next = strs(terms@).take(k + 1);
        assert(next.drop_last() =~= prev);
        assert(next.last() == term@);
        let lt = to_lowercase(term.as_str());
        let term_lower = chars_of(lt.as_str());
        if term_lower.len() > 0 && contains_chars(&tgt_lower, &term_lower) {
            let mut msg = String::from_str("금지 용어 사용: '");
            push_str(&mut msg, term.as_str());
            push_str(&mut msg, "'");
            let issue = make_issue(id, "ForbiddenTerm", "Error", msg);
            let ghost before = issues_view(out@);
            let ghost iv = issue@;
            out.push(issue);
            assert(issues_view(out@) =~= before.push(iv));
        }
        k = k + 1;
    }
    assert(strs(terms@).take(terms.len() as int) =~= strs(terms@));
}

/// Runs every check on every segment: the findings of each segment in the
/// order of [`segment_issues`], segments in the given order.
pub fn run_checks(segments: &Vec<(String, String, String, String)>, forbidden_terms: &Vec<String>) -> (r:
    Vec<QaIssue>)
    ensures
        issues_view(r@) == all_issues(segments@, strs(forbidden_terms@)),
{
    let mut issues: Vec<QaIssue> = Vec::new();
    let mut i: usize = 0;
    assert(segments@.take(0) =~= Seq::<(String, String, String, String)>::empty());
    assert(issues_view(issues@) =~= Seq::<IssueView>::empty());
    while i < segments.len()
        invariant
            i <= segments.len(),
            issues_view(issues@) == all_issues(segments@.take(i as int), strs(forbidden_terms@)),
        decreases segments.len() - i,
    {
        let row = &segments[i];
        let ghost terms = strs(forbidden_terms@);
        let ghost before = issues_view(issues@);
        assert(segments@.take(i + 1).drop_last() =~= segments@.take(i as int));
        assert(segments@.take(i + 1).last() == *row);
        let id = row.0.as_str();
        let source = row.1.as_str();
        let target = row.2.as_str();
        let status = row.3.as_str();
        push_opt(&mut issues, check_tag_mismatch(id, source, target));
        push_opt(&mut issues, check_number_mismatch(id, source, target));
        push_opt(&mut issues, check_untranslated(id, target, status));
        push_opt(&mut issues, check_source_equals_target(id, source, target));
        push_forbidden(&mut issues, id, target, forbidden_terms);
        assert(issues_view(issues@) =~= before + row_issues(*row, terms));
        i = i + 1;
    }
    assert(segments@.take(segments.len() as int) =~= segments@);
    issues
}

/// A target identical to its source has no tag or number issue, and an
/// empty target is reported untranslated but never for its numbers or as
/// equal to its source.
pub proof fn lemma_qa_checks_consistent(id: Seq<char>, source: Seq<char>, target: Seq<char>, status: Seq<char>)
    ensures
        tag_issue(id, source, source) is None,
        number_issue(id, source, source) is None,
        is_blank(target) ==> number_issue(id, source, target) is None && untranslated_issue(
            id,
            target,
            status,
        ) is Some && same_issue(id, source, target) is None,
        tag_issue(id, source, target) is Some <==> tags_of(source) != tags_of(target),
{
}

/// The forbidden-term findings of a target depend on its letters only up
/// to case: two targets with the same lower-case form (and both blank or
/// both not) get the same findings.
pub proof fn lemma_forbidden_target_case(id: Seq<char>, t1: Seq<char>, t2: Seq<char>, terms: Seq<Seq<char>>)
    requires
        lowercase(t1) == lowercase(t2),
        is_blank(t1) == is_blank(t2),
    ensures
        forbidden_issues(id, t1, terms) == forbidden_issues(id, t2, terms),
    decreases terms.len(),
{
    if terms.len() > 0 {
        lemma_forbidden_target_case(id, t1, t2, terms.drop_last());
    }
}

/// Whether a term is found does not depend on the case of the term: terms
/// with the same lower-case form give the same number of findings.
pub proof fn lemma_forbidden_term_case(id: Seq<char>, target: Seq<char>, u1: Seq<char>, u2: Seq<char>)
    requires
        lowercase(u1) == lowercase(u2),
    ensures
        forbidden_issues(id, target, seq![u1]).len() == forbidden_issues(id, target, seq![u2]).len(),
{
    assert(seq![u1].drop_last() =~= Seq::<Seq<char>>::empty());
    assert(seq![u2].drop_last() =~= Seq::<Seq<char>>::empty());
}

/// A term is reported for a non-blank target exactly when its lower-case
/// form is non-empty and occurs in the lower-cased target.
pub proof fn lemma_forbidden_found(id: Seq<char>, target: Seq<char>, u: Seq<char>)
    ensures
        forbidden_issues(id, target, seq![u]).len() == 1 <==> !is_blank(target) && lowercase(u).len()
            > 0 && contains_seq(lowercase(target), lowercase(u)),
        forbidden_issues(id, target, seq![u]).len() <= 1,
{
    let one: Seq<Seq<char>> = seq![u];
    assert(one.drop_last() =~= Seq::<Seq<char>>::empty());
    assert(one.last() == u);
    assert(forbidden_issues(id, target, Seq::<Seq<char>>::empty()).len() == 0);
}

} // verus!
