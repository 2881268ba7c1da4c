//! The decisions of the X11 backend: which key or button a request names,
//! which monitors the RandR outputs describe, and how an X image becomes
//! RGBA. Talking to the X server is left to the caller.
use vstd::prelude::*;
use vstd::string::StrSliceExecFns;
use crate::backends::{MonitorInfo, MonitorView};
use crate::text::{same_text, to_decimal, decimal};

verus! {

/// A mouse button.
#[derive(Debug, Clone, Copy, PartialEq, Eq, Structural)]
pub enum MouseButton {
    Left,
    Right,
    Middle,
}

/// A key the host can press.
#[derive(Debug, Clone, Copy, PartialEq, Eq, Structural)]
pub enum KeyCode {
    Return,
    Tab,
    Escape,
    Backspace,
    Delete,
    UpArrow,
    DownArrow,
    LeftArrow,
    RightArrow,
    F4,
    Unicode(char),
}

/// A modifier key.
#[derive(Debug, Clone, Copy, PartialEq, Eq, Structural)]
pub enum ModifierKey {
    Control,
    Shift,
    Alt,
}

pub open spec fn button_of(b: Seq<char>) -> Option<MouseButton> {
    if b == "left"@ {
        Some(MouseButton::Left)
    } else if b == "right"@ {
        Some(MouseButton::Right)
    } else if b == "middle"@ {
        Some(MouseButton::Middle)
    } else {
        None
    }
}

/// The button a request names.
pub fn map_button(b: &str) -> (r: Result<MouseButton, String>)
    ensures
        match button_of(b@) {
            Some(m) => r == Ok::<MouseButton, String>(m),
            None => r matches Err(e) && e@ == "unknown button"@,
        },
{
    if same_text(b, "left") {
        Ok(MouseButton::Left)
    } else if same_text(b, "right") {
        Ok(MouseButton::Right)
    } else if same_text(b, "middle") {
        Ok(MouseButton::Middle)
    } else {
        Err("unknown button".to_owned())
    }
}

/// The key a name stands for: a few named keys, or any text of one byte
/// (an ASCII character) as that character.
pub open spec fn key_of(k: Seq<char>) -> Option<KeyCode> {
    if k == "Enter"@ {
        Some(KeyCode::Return)
    } else if k == "Tab"@ {
        Some(KeyCode::Tab)
    } else if k == "Escape"@ {
        Some(KeyCode::Escape)
    } else if k == "Backspace"@ {
        Some(KeyCode::Backspace)
    } else if k == "Delete"@ {
        Some(KeyCode::Delete)
    } else if k == "Up"@ {
        Some(KeyCode::UpArrow)
    } else if k == "Down"@ {
        Some(KeyCode::DownArrow)
    } else if k == "Left"@ {
        Some(KeyCode::LeftArrow)
    } else if k == "Right"@ {
        Some(KeyCode::RightArrow)
    } else if k == "F4"@ {
        Some(KeyCode::F4)
    } else if vstd::utf8::encode_utf8(k).len() == 1 {
        Some(KeyCode::Unicode(k[0]))
    } else {
        None
    }
}

/// The key a request names; an unknown name is the error
/// "unknown key: <name>".
pub fn map_key(k: &str) -> (r: Result<KeyCode, String>)
    ensures
        match key_of(k@) {
            Some(c) => r == Ok::<KeyCode, String>(c),
            None => r matches Err(e) && e@ == "unknown key: "@ + k@,
        },
{
    if same_text(k, "Enter") {
        Ok(KeyCode::Return)
    } else if same_text(k, "Tab") {
        Ok(KeyCode::Tab)
    } else if same_text(k, "Escape") {
        Ok(KeyCode::Escape)
    } else if same_text(k, "Backspace") {
        Ok(KeyCode::Backspace)
    } else if same_text(k, "Delete") {
        Ok(KeyCode::Delete)
    } else if same_text(k, "Up") {
        Ok(KeyCode::UpArrow)
    } else if same_text(k, "Down") {
        Ok(KeyCode::DownArrow)
    } else if same_text(k, "Left") {
        Ok(KeyCode::LeftArrow)
    } else if same_text(k, "Right") {
        Ok(KeyCode::RightArrow)
    } else if same_text(k, "F4") {
        Ok(KeyCode::F4)
    } else if k.as_bytes().len() == 1 {
        proof {
            if k@.len() == 0 {
                assert(vstd::utf8::encode_utf8(k@) =~= Seq::<u8>::empty());
            }
        }
        Ok(KeyCode::Unicode(k.get_char(0)))
    } else {
        let mut e = "unknown key: ".to_owned();
        e.append(k);
        Err(e)
    }
}

pub open spec fn modifier_of(m: Seq<char>) -> Option<ModifierKey> {
    if m == "ctrl"@ {
        Some(ModifierKey::Control)
    } else if m == "shift"@ {
        Some(ModifierKey::Shift)
    } else if m == "alt"@ {
        Some(ModifierKey::Alt)
    } else {
        None
    }
}

/// The modifier key a name stands for; otherwise the error
/// "unknown modifier: <name>".
pub fn map_modifier(m: &str) -> (r: Result<ModifierKey, String>)
    ensures
        match modifier_of(m@) {
            Some(c) => r == Ok::<ModifierKey, String>(c),
            None => r matches Err(e) && e@ == "unknown modifier: "@ + m@,
        },
{
    if same_text(m, "ctrl") {
        Ok(ModifierKey::Control)
    } else if same_text(m, "shift") {
        Ok(ModifierKey::Shift)
    } else if same_text(m, "alt") {
        Ok(ModifierKey::Alt)
    } else {
        let mut e = "unknown modifier: ".to_owned();
        e.append(m);
        Err(e)
    }
}

/// One input event of a key press.
#[derive(Debug, Clone, Copy, PartialEq, Eq, Structural)]
pub enum KeyStep {
    /// Press and hold a modifier.
    Hold(ModifierKey),
    /// Press and release the key.
    Tap(KeyCode),
    /// Release a held modifier.
    Release(ModifierKey),
}

/// The modifier keys the names stand for, in order; or, at the first
/// unknown name, the keys before it and the error "unknown modifier:
/// <name>".
pub open spec fn modifier_keys(ms: Seq<Seq<char>>) -> Result<
    Seq<ModifierKey>,
    (Seq<ModifierKey>, Seq<char>),
>
    decreases ms.len(),
{
    if ms.len() == 0 {
        Ok(seq![])
    } else {
        match modifier_keys(ms.drop_last()) {
            Err(e) => Err(e),
            Ok(prior) => match modifier_of(ms.last()) {
                Some(m) => Ok(prior.push(m)),
                None => Err((prior, "unknown modifier: "@ + ms.last())),
            },
        }
    }
}

/// The events of a press: every modifier held in order, the key tapped,
/// then the modifiers released in reverse order.
pub open spec fn press_steps(k: KeyCode, mods: Seq<ModifierKey>) -> Seq<KeyStep> {
    mods.map_values(|m: ModifierKey| KeyStep::Hold(m)).push(KeyStep::Tap(k)) + mods.reverse().map_values(
        |m: ModifierKey| KeyStep::Release(m),
    )
}

/// The events of pressing `key` with `modifiers`; on an unknown key, the
/// error "unknown key: <name>" with nothing to do; on an unknown modifier,
/// the modifiers before it (which are held before the press gives up) and
/// the error "unknown modifier: <name>".
pub fn press_plan(key: &str, modifiers: &Vec<String>) -> (r: Result<
    Vec<KeyStep>,
    (Vec<ModifierKey>, String),
>)
    ensures
        match key_of(key@) {
            None => r matches Err((held, e)) && held@.len() == 0 && e@ == "unknown key: "@ + key@,
            Some(k) => match modifier_keys(modifiers@.map_values(|s: String| s@)) {
                Ok(ms) => r matches Ok(steps) && steps@ == press_steps(k, ms),
                Err((held, msg)) => r matches Err((h, e)) && h@ == held && e@ == msg,
            },
        },
{
    let k = match map_key(key) {
        Ok(k) => k,
        Err(e) => return Err((Vec::new(), e)),
    };
    let ghost names = modifiers@.map_values(|s: String| s@);
    let mut held: Vec<ModifierKey> = Vec::new();
    let mut i: usize = 0;
    while i < modifiers.len()
        invariant
            names == modifiers@.map_values(|s: String| s@),
            key_of(key@) == Some(k),
            i <= modifiers@.len(),
            modifier_keys(names.take(i as int)) == Ok::<
                Seq<ModifierKey>,
                (Seq<ModifierKey>, Seq<char>),
            >(held@),
        decreases modifiers@.len() - i,
    {
        proof {
            assert(names.take(i + 1).drop_last() =~= names.take(i as int));
            assert(names.take(i + 1).last() == modifiers@[i as int]@);
        }
        match map_modifier(modifiers[i].as_str()) {
            Ok(m) => {
                held.push(m);
            },
            Err(e) => {
                proof {
                    assert(modifier_of(names.take(i + 1).last()) is None);
                    assert(modifier_keys(names.take(i + 1)) == Err::<
                        Seq<ModifierKey>,
                        (Seq<ModifierKey>, Seq<char>),
                    >((held@, "unknown modifier: "@ + modifiers@[i as int]@)));
                    lemma_modifier_keys_prefix_err(names, (i + 1) as nat);
                }
                return Err((held, e));
            },
        }
        i = i + 1;
    }
    proof {
        assert(names.take(modifiers@.len() as int) =~= names);
    }
    let mut steps: Vec<KeyStep> = Vec::new();
    let mut j: usize = 0;
    while j < held.len()
        invariant
            j <= held@.len(),
            steps@ == held@.take(j as int).map_values(|m: ModifierKey| KeyStep::Hold(m)),
        decreases held@.len() - j,
    {
        steps.push(KeyStep::Hold(held[j]));
        proof {
            assert(held@.take(j + 1) =~= held@.take(j as int).push(held@[j as int]));
            assert(steps@ =~= held@.take(j + 1).map_values(|m: ModifierKey| KeyStep::Hold(m)));
        }
        j = j + 1;
    }
    proof {
        assert(held@.take(held@.len() as int) =~= held@);
    }
    steps.push(KeyStep::Tap(k));
    let ghost front = steps@;
    let mut n: usize = held.len();
    while n > 0
        invariant
            n <= held@.len(),
            steps@ == front + held@.subrange(n as int, held@.len() as int).reverse().map_values(
                |m: ModifierKey| KeyStep::Release(m),
            ),
        decreases n,
    {
        n = n - 1;
        steps.push(KeyStep::Release(held[n]));
        proof {
            let tail = held@.subrange(n as int, held@.len() as int);
            let prev = held@.subrange(n + 1, held@.len() as int);
            assert(tail.reverse() =~= prev.reverse().push(held@[n as int]));
            assert(steps@ =~= front + tail.reverse().map_values(|m: ModifierKey| KeyStep::Release(m)));
        }
    }
    proof {
        assert(held@.subrange(0, held@.len() as int) =~= held@);
        assert(steps@ =~= press_steps(k, held@));
    }
    Ok(steps)
}

/// Once a prefix of the names fails, the whole list fails the same way.
proof fn lemma_modifier_keys_prefix_err(names: Seq<Seq<char>>, n: nat)
    requires
        n <= names.len(),
        modifier_keys(names.take(n as int)) is Err,
    ensures
        modifier_keys(names) == modifier_keys(names.take(n as int)),
    decreases names.len() - n,
{
    if n < names.len() {
        assert(names.take(n as int + 1).drop_last() =~= names.take(n as int));
        lemma_modifier_keys_prefix_err(names, n + 1);
    } else {
        assert(names.take(n as int) =~= names);
    }
}

/// What the X server said about one RandR output: the CRTC it drives
/// (`None` when the output could not be queried; 0 when it drives none),
/// and the CRTC's size (`None` when it was not or could not be queried).
#[derive(Debug, Clone, Copy)]
pub struct OutputProbe {
    pub crtc: Option<u32>,
    pub crtc_size: Option<(u16, u16)>,
}

/// The monitor an output describes: an active CRTC of non-zero width,
/// named by the output's position, primary when it is the first output.
pub open spec fn monitor_of_output(i: int, o: OutputProbe) -> Option<MonitorView> {
    match (o.crtc, o.crtc_size) {
        (Some(c), Some((w, h))) => if c != 0 && w > 0 {
            Some(
                MonitorView {
                    monitor_id: seq!['m'] + decimal(i as nat),
                    source_width: w as u32,
                    source_height: h as u32,
                    is_primary: i == 0,
                },
            )
        } else {
            None
        },
        _ => None,
    }
}

/// The monitors of the first `n` outputs, in output order.
pub open spec fn monitors_of(outputs: Seq<OutputProbe>, n: int) -> Seq<MonitorView>
    decreases n,
{
    if n <= 0 {
        seq![]
    } else {
        let prior = monitors_of(outputs, n - 1);
        match monitor_of_output(n - 1, outputs[n - 1]) {
            Some(m) => prior.push(m),
            None => prior,
        }
    }
}

/// The monitors the RandR outputs describe (see `monitor_of_output`).
pub fn list_outputs(outputs: &Vec<OutputProbe>) -> (r: Vec<MonitorInfo>)
    ensures
        r@.map_values(|m: MonitorInfo| m@) == monitors_of(outputs@, outputs@.len() as int),
{
    let mut out: Vec<MonitorInfo> = Vec::new();
    let mut i: usize = 0;
    while i < outputs.len()
        invariant
            i <= outputs@.len(),
            out@.map_values(|m: MonitorInfo| m@) == monitors_of(outputs@, i as int),
        decreases outputs@.len() - i,
    {
        let o = outputs[i];
        if let (Some(c), Some((w, h))) = (o.crtc, o.crtc_size) {
            if c != 0 && w > 0 {
                let mut id = "m".to_owned();
                let digits = to_decimal(i as u64);
                id.append(digits.as_str());
                proof {
                    reveal_strlit("m");
                    assert("m"@ =~= seq!['m']);
                }
                out.push(
                    MonitorInfo {
                        monitor_id: id,
                        source_width: w as u32,
                        source_height: h as u32,
                        is_primary: i == 0,
                    },
                );
                proof {
                    assert(out@.map_values(|m: MonitorInfo| m@) =~= monitors_of(
                        outputs@,
                        i as int,
                    ).push(monitor_of_output(i as int, o).unwrap()));
                }
            }
        }
        i = i + 1;
    }
    out
}

pub open spec fn root_monitor(w: u16, h: u16) -> MonitorView {
    MonitorView {
        monitor_id: "m0"@,
        source_width: w as u32,
        source_height: h as u32,
        is_primary: true,
    }
}

/// The monitor list: the RandR monitors, or, when there are none, the whole
/// root window as the one primary monitor "m0".
pub fn monitors_or_root(outputs: Vec<MonitorInfo>, root_width: u16, root_height: u16) -> (r: Vec<
    MonitorInfo,
>)
    ensures
        outputs@.len() > 0 ==> r@ == outputs@,
        outputs@.len() == 0 ==> r@.map_values(|m: MonitorInfo| m@) == seq![
            root_monitor(root_width, root_height),
        ],
{
    if outputs.len() > 0 {
        outputs
    } else {
        let r = vec![
            MonitorInfo {
                monitor_id: "m0".to_owned(),
                source_width: root_width as u32,
                source_height: root_height as u32,
                is_primary: true,
            },
        ];
        proof {
            assert(r@.map_values(|m: MonitorInfo| m@) =~= seq![
                root_monitor(root_width, root_height),
            ]);
        }
        r
    }
}

/// A capture of no monitor, or of "m0", grabs the whole root window.
pub fn captures_root(monitor_id: Option<&str>) -> (r: bool)
    ensures
        r == match monitor_id {
            None => true,
            Some(id) => id@ == "m0"@,
        },
{
    match monitor_id {
        None => true,
        Some(id) => same_text(id, "m0"),
    }
}

/// The position of the monitor with the given id, if any (the first).
pub fn find_monitor(monitors: &Vec<MonitorInfo>, id: &str) -> (r: Option<usize>)
    ensures
        r matches Some(i) ==> i < monitors@.len() && monitors@[i as int].monitor_id@ == id@
            && forall|j: int| 0 <= j < i ==> monitors@[j].monitor_id@ != id@,
        r is None ==> forall|j: int| 0 <= j < monitors@.len() ==> monitors@[j].monitor_id@ != id@,
{
    let mut i: usize = 0;
    while i < monitors.len()
        invariant
            i <= monitors@.len(),
            forall|j: int| 0 <= j < i ==> monitors@[j].monitor_id@ != id@,
        decreases monitors@.len() - i,
    {
        if same_text(monitors[i].monitor_id.as_str(), id) {
            return Some(i);
        }
        i = i + 1;
    }
    None
}

/// One step of the search for the CRTC of the `target`-th monitor: outputs
/// without a CRTC are skipped; among the others, the `target`-th (counted
/// from 0, `seen` so far) is the one to fetch. Returns whether to fetch
/// this output's CRTC, and the new count.
pub fn crtc_search_step(seen: usize, target: usize, crtc: u32) -> (r: (bool, usize))
    requires
        seen <= target,
    ensures
        crtc == 0 ==> r == (false, seen),
        crtc != 0 && seen == target ==> r == (true, seen),
        crtc != 0 && seen != target ==> r == (false, (seen + 1) as usize),
{
    if crtc == 0 {
        (false, seen)
    } else if seen == target {
        (true, seen)
    } else {
        (false, seen + 1)
    }
}

/// Bytes per pixel of an X image of `len` bytes and `w` x `h` pixels (at
/// least 1).
pub open spec fn bytes_per_pixel(len: nat, w: u32, h: u32) -> nat {
    let q = len / ((w as nat) * (h as nat));
    if q < 1 {
        1
    } else {
        q
    }
}

/// RGBA of a Z-pixmap whose pixels are `bpp` bytes B, G, R, ...: one RGBA
/// pixel per whole pixel of input, fully opaque.
pub open spec fn rgba_of(data: Seq<u8>, bpp: nat) -> Seq<u8> {
    Seq::new(
        4 * (data.len() / bpp),
        |k: int|
            {
                let p = k / 4;
                let c = k % 4;
                if c == 0 {
                    data[p * bpp + 2]
                } else if c == 1 {
                    data[p * bpp + 1]
                } else if c == 2 {
                    data[p * bpp]
                } else {
                    255u8
                }
            },
    )
}

/// Converts an X image (32-bit depth assumed: B, G, R, X per pixel) to
/// RGBA. Depths of fewer than 4 bytes per pixel are refused.
pub fn bgrx_to_rgba(data: &[u8], w: u32, h: u32) -> (r: Result<Vec<u8>, String>)
    requires
        w > 0,
        h > 0,
    ensures
        bytes_per_pixel(data@.len(), w, h) < 4 ==> (r matches Err(e) && e@ == "unsupported depth"@),
        bytes_per_pixel(data@.len(), w, h) >= 4 ==> (r matches Ok(v) && v@ == rgba_of(
            data@,
            bytes_per_pixel(data@.len(), w, h),
        )),
{
    assert((w as u64) * (h as u64) <= 0xffff_ffff_u64 * 0xffff_ffff_u64) by (nonlinear_arith)
        requires
            w <= 0xffff_ffff,
            h <= 0xffff_ffff,
    ;
    assert((w as u64) * (h as u64) > 0) by (nonlinear_arith)
        requires
            w > 0,
            h > 0,
    ;
    let area: u64 = (w as u64) * (h as u64);
    let q: u64 = (data.len() as u64) / area;
    let bpp: u64 = if q < 1 {
        1
    } else {
        q
    };
    let ghost gbpp = bytes_per_pixel(data@.len(), w, h);
    assert(bpp == gbpp);
    if bpp < 4 {
        return Err("unsupported depth".to_owned());
    }
    let bpp: usize = bpp as usize;
    let len: usize = data.len();
    let n: usize = len / bpp;
    let mut out: Vec<u8> = Vec::new();
    let mut p: usize = 0;
    while p < n
        invariant
            bpp == gbpp,
            bpp >= 4,
            len == data@.len(),
            n == data@.len() / (bpp as nat),
            p <= n,
            out@.len() == 4 * p,
            forall|k: int| 0 <= k < 4 * p ==> #[trigger] out@[k] == rgba_of(data@, gbpp)[k],
        decreases n - p,
    {
        assert(p * bpp + bpp <= n * bpp) by (nonlinear_arith)
            requires
                p < n,
        ;
        assert(n * bpp <= data@.len()) by (nonlinear_arith)
            requires
                n == data@.len() / (bpp as nat),
                bpp > 0,
        ;
        assert(p * bpp + 2 < len);
        let base = p * bpp;
        out.push(data[base + 2]);
        out.push(data[base + 1]);
        out.push(data[base]);
        out.push(255);
        proof {
            assert forall|k: int| 4 * p <= k < 4 * (p + 1) implies #[trigger] out@[k] == rgba_of(
                data@,
                gbpp,
            )[k] by {
                assert(k / 4 == p);
                assert(4 * (p + 1) <= 4 * n);
            }
        }
        p = p + 1;
    }
    proof {
        assert(out@ =~= rgba_of(data@, gbpp));
    }
    Ok(out)
}

/// The name a key is pressed by: the named keys by their names, any other
/// key by its one character.
pub open spec fn key_name(k: KeyCode) -> Seq<char> {
    match k {
        KeyCode::Return => "Enter"@,
        KeyCode::Tab => "Tab"@,
        KeyCode::Escape => "Escape"@,
        KeyCode::Backspace => "Backspace"@,
        KeyCode::Delete => "Delete"@,
        KeyCode::UpArrow => "Up"@,
        KeyCode::DownArrow => "Down"@,
        KeyCode::LeftArrow => "Left"@,
        KeyCode::RightArrow => "Right"@,
        KeyCode::F4 => "F4"@,
        KeyCode::Unicode(c) => seq![c],
    }
}

proof fn lemma_encode_len(s: Seq<char>)
    ensures
        vstd::utf8::encode_utf8(s).len() >= s.len(),
    decreases s.len(),
{
    if s.len() > 0 {
        lemma_encode_len(s.drop_first());
    }
}

proof fn lemma_reveal_key_names()
    ensures
        "Enter"@ =~= seq!['E', 'n', 't', 'e', 'r'],
        "Tab"@ =~= seq!['T', 'a', 'b'],
        "Escape"@ =~= seq!['E', 's', 'c', 'a', 'p', 'e'],
        "Backspace"@ =~= seq!['B', 'a', 'c', 'k', 's', 'p', 'a', 'c', 'e'],
        "Delete"@ =~= seq!['D', 'e', 'l', 'e', 't', 'e'],
        "Up"@ =~= seq!['U', 'p'],
        "Down"@ =~= seq!['D', 'o', 'w', 'n'],
        "Left"@ =~= seq!['L', 'e', 'f', 't'],
        "Right"@ =~= seq!['R', 'i', 'g', 'h', 't'],
        "F4"@ =~= seq!['F', '4'],
{
    reveal_strlit("Enter");
    reveal_strlit("Tab");
    reveal_strlit("Escape");
    reveal_strlit("Backspace");
    reveal_strlit("Delete");
    reveal_strlit("Up");
    reveal_strlit("Down");
    reveal_strlit("Left");
    reveal_strlit("Right");
    reveal_strlit("F4");
}

/// Law: the key a name stands for is the key of that name. Whatever text a
/// press names, a key it is mapped to is named by exactly that text, so
/// distinct names never press the same key; and every key (any ASCII
/// character among them) is pressed by its own name.
pub proof fn law_key_names(s: Seq<char>, k: KeyCode)
    ensures
        key_of(s) matches Some(kk) ==> key_name(kk) == s,
        (k matches KeyCode::Unicode(c) ==> (c as u32) < 128) ==> key_of(key_name(k)) == Some(k),
{
    lemma_reveal_key_names();
    if let Some(KeyCode::Unicode(c)) = key_of(s) {
        lemma_encode_len(s);
        if s.len() > 1 {
            lemma_encode_len(s.drop_first());
            assert(vstd::utf8::encode_utf8(s).len() >= 2);
        }
        assert(s.len() == 1);
        assert(s =~= seq![c]);
    }
    if let KeyCode::Unicode(c) = k {
        if (c as u32) < 128 {
            let t = seq![c];
            assert(vstd::utf8::is_ascii_chars(t));
            vstd::utf8::is_ascii_chars_encode_utf8(t);
            assert(t.len() != "F4"@.len() || t != "F4"@);
            assert(t[0] == c);
        }
    }
}

} // verus!
