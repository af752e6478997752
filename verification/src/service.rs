//! The device session and framebuffer service.
//!
//! One owned service object holds the registry state: live connection
//! handles, friendly names, and one framebuffer per serial number ever
//! connected. USB enumeration, control transfers and file I/O happen
//! outside; the caller feeds their results in as plain values and performs
//! the transfers the contracts describe. Connection handles are tracked as
//! opaque numeric tokens owned by the caller's USB layer.

use vstd::prelude::*;
use crate::LedError;
use crate::assoc::AssocMap;
use crate::codec;
use crate::color::Rgb;
use crate::color::LedColor;

verus! {

/// Bytes of one framebuffer of `count` LEDs: all dark.
pub open spec fn zero_buffer_spec(count: int) -> Seq<u8> {
    Seq::new((3 * count) as nat, |i: int| 0u8)
}

/// GRB byte layout of a whole frame: three bytes per LED, green first.
pub open spec fn grb_bytes(colors: Seq<Rgb>) -> Seq<u8>
    decreases colors.len(),
{
    if colors.len() == 0 {
        Seq::empty()
    } else {
        grb_bytes(colors.drop_last()) + seq![
            colors.last().g,
            colors.last().r,
            colors.last().b,
        ]
    }
}

/// `grb_bytes` lays each LED's three bytes at `3 * index`, green first.
pub proof fn lemma_grb_bytes_index(colors: Seq<Rgb>, c: int)
    requires
        0 <= c < colors.len(),
    ensures
        grb_bytes(colors).len() == 3 * colors.len(),
        grb_bytes(colors)[3 * c] == colors[c].g,
        grb_bytes(colors)[3 * c + 1] == colors[c].r,
        grb_bytes(colors)[3 * c + 2] == colors[c].b,
    decreases colors.len(),
{
    lemma_grb_bytes_len(colors);
    if c == colors.len() - 1 {
        lemma_grb_bytes_len(colors.drop_last());
    } else {
        lemma_grb_bytes_index(colors.drop_last(), c);
        lemma_grb_bytes_len(colors.drop_last());
    }
}

/// `grb_bytes` yields three bytes per LED.
pub proof fn lemma_grb_bytes_len(colors: Seq<Rgb>)
    ensures
        grb_bytes(colors).len() == 3 * colors.len(),
    decreases colors.len(),
{
    if colors.len() > 0 {
        lemma_grb_bytes_len(colors.drop_last());
    }
}

/// A framebuffer with one LED's three bytes overwritten in GRB order.
pub open spec fn write_led(buf: Seq<u8>, index: int, c: Rgb) -> Seq<u8> {
    buf.update(3 * index, c.g).update(3 * index + 1, c.r).update(3 * index + 2, c.b)
}

/// The device session and framebuffer service.
pub struct DeviceService {
    width: usize,
    height: usize,
    handles: AssocMap<u64>,
    names: AssocMap<String>,
    buffers: AssocMap<Vec<u8>>,
}

impl DeviceService {
    /// Matrix width the service was built for.
    pub closed spec fn spec_width(self) -> int {
        self.width as int
    }

    /// Matrix height the service was built for.
    pub closed spec fn spec_height(self) -> int {
        self.height as int
    }

    /// Number of LEDs in one frame.
    pub open spec fn led_count(self) -> int {
        self.spec_width() * self.spec_height()
    }

    /// Bytes in one framebuffer.
    pub open spec fn buffer_size(self) -> int {
        self.led_count() * 3
    }

    /// Live connection handles by serial number.
    pub closed spec fn handles_map(self) -> Map<Seq<char>, u64> {
        self.handles@
    }

    /// Friendly names by serial number.
    pub closed spec fn names_map(self) -> Map<Seq<char>, Seq<char>> {
        self.names@
    }

    /// Framebuffers by serial number.
    pub closed spec fn buffers_map(self) -> Map<Seq<char>, Seq<u8>> {
        self.buffers@
    }

    /// Internal consistency: the maps are well formed, the dimensions are
    /// positive and small enough for index arithmetic, and every stored
    /// framebuffer has exactly `width * height * 3` bytes.
    pub closed spec fn wf(self) -> bool {
        &&& self.handles.wf()
        &&& self.names.wf()
        &&& self.buffers.wf()
        &&& 0 < self.width
        &&& 0 < self.height
        &&& self.width * self.height * 3 <= usize::MAX
        &&& forall|k: Seq<char>|
            self.buffers@.contains_key(k) ==> (#[trigger] self.buffers@[k]).len()
                == self.buffer_size()
    }

    /// The dimensions and the three maps, unchanged between two states
    /// except as a contract says otherwise.
    pub open spec fn same_config(self, other: DeviceService) -> bool {
        &&& self.spec_width() == other.spec_width()
        &&& self.spec_height() == other.spec_height()
    }

    /// A fresh service for a `width` by `height` matrix: no connections,
    /// no names, no framebuffers.
    pub fn new(width: usize, height: usize) -> (s: Self)
        requires
            0 < width,
            0 < height,
            width * height * 3 <= usize::MAX,
        ensures
            s.wf(),
            s.spec_width() == width,
            s.spec_height() == height,
            s.handles_map() == Map::<Seq<char>, u64>::empty(),
            s.names_map() == Map::<Seq<char>, Seq<char>>::empty(),
            s.buffers_map() == Map::<Seq<char>, Seq<u8>>::empty(),
    {
        DeviceService {
            width,
            height,
            handles: AssocMap::new(),
            names: AssocMap::new(),
            buffers: AssocMap::new(),
        }
    }

    /// Matrix width.
    pub fn width(&self) -> (r: usize)
        ensures
            r == self.spec_width(),
    {
        self.width
    }

    /// Matrix height.
    pub fn height(&self) -> (r: usize)
        ensures
            r == self.spec_height(),
    {
        self.height
    }

    /// Number of LEDs in one frame.
    pub fn count_leds(&self) -> (r: usize)
        requires
            self.wf(),
        ensures
            r == self.led_count(),
    {
        proof {
            assert(self.width * self.height <= self.width * self.height * 3) by (nonlinear_arith)
                requires 0 < self.width, 0 < self.height;
        }
        self.width * self.height
    }

    /// Records a friendly name for a serial number; pure metadata,
    /// independent of connection liveness.
    pub fn set_friendly_name(&mut self, serial_number: String, friendly_name: String)
        requires
            old(self).wf(),
        ensures
            final(self).wf(),
            final(self).same_config(*old(self)),
            final(self).names_map() == old(self).names_map().insert(
                serial_number@,
                friendly_name@,
            ),
            final(self).handles_map() == old(self).handles_map(),
            final(self).buffers_map() == old(self).buffers_map(),
    {
        self.names.insert(serial_number, friendly_name);
    }

    /// All recorded friendly names, as serial-number/name pairs: each
    /// recorded serial number appears exactly once with its name.
    pub fn get_friendly_names(&self) -> (r: Vec<(String, String)>)
        requires
            self.wf(),
        ensures
            forall|i: int|
                0 <= i < r@.len() ==> self.names_map().contains_key(#[trigger] r@[i].0@)
                    && self.names_map()[r@[i].0@] == r@[i].1@,
            forall|k: Seq<char>|
                self.names_map().contains_key(k) ==> exists|i: int|
                    0 <= i < r@.len() && #[trigger] r@[i].0@ == k,
            forall|i: int, j: int| 0 <= i < j < r@.len() ==> r@[i].0@ != r@[j].0@,
    {
        self.names.entries()
    }

    /// The stored connection handle for a serial number, if one exists.
    /// `None` means a connect must enumerate; `Some` means the caller
    /// should probe the handle's liveness instead of enumerating.
    pub fn connect_begin(&self, serial_number: &String) -> (r: Option<u64>)
        requires
            self.wf(),
        ensures
            match r {
                Some(h) => self.handles_map().contains_key(serial_number@) && h
                    == self.handles_map()[serial_number@],
                None => !self.handles_map().contains_key(serial_number@),
            },
    {
        match self.handles.get(serial_number) {
            Some(h) => Some(*h),
            None => None,
        }
    }

    /// Digests a liveness probe of the stored handle. A live handle means
    /// the device is still connected and nothing changes; a dead one is
    /// evicted (its framebuffer is kept for a reconnect) and the caller
    /// must enumerate.
    pub fn connect_after_probe(&mut self, serial_number: &String, alive: bool) -> (r: bool)
        requires
            old(self).wf(),
            old(self).handles_map().contains_key(serial_number@),
        ensures
            final(self).wf(),
            final(self).same_config(*old(self)),
            r == alive,
            alive ==> *final(self) == *old(self),
            !alive ==> final(self).handles_map() == old(self).handles_map().remove(serial_number@),
            final(self).names_map() == old(self).names_map(),
            final(self).buffers_map() == old(self).buffers_map(),
    {
        if alive {
            return true;
        }
        let _ = self.handles.take(serial_number);
        false
    }

    /// Digests one enumerated candidate during a connect scan: when its
    /// serial number is the one sought, stores the new handle (replacing
    /// any stale one) and makes sure a framebuffer exists — a fresh all-zero
    /// one if the serial number was never connected, never resetting an
    /// existing buffer. Returns whether the scan is done.
    pub fn connect_candidate(
        &mut self,
        serial_number: &String,
        candidate_serial: &String,
        candidate_handle: u64,
    ) -> (r: bool)
        requires
            old(self).wf(),
        ensures
            final(self).wf(),
            final(self).same_config(*old(self)),
            r == (candidate_serial@ == serial_number@),
            !r ==> *final(self) == *old(self),
            r ==> final(self).handles_map() == old(self).handles_map().insert(
                serial_number@,
                candidate_handle,
            ),
            r ==> final(self).buffers_map() == (if old(self).buffers_map().contains_key(
                serial_number@,
            ) {
                old(self).buffers_map()
            } else {
                old(self).buffers_map().insert(
                    serial_number@,
                    zero_buffer_spec(old(self).led_count()),
                )
            }),
            final(self).names_map() == old(self).names_map(),
    {
        if !(*candidate_serial == *serial_number) {
            return false;
        }
        self.handles.insert(serial_number.clone(), candidate_handle);
        if !self.buffers.contains_key(serial_number) {
            proof {
                assert(self.width * self.height <= self.width * self.height * 3)
                    by (nonlinear_arith)
                    requires 0 < self.width, 0 < self.height;
                assert((self.width * self.height) * 3 == self.width * self.height * 3)
                    by (nonlinear_arith);
            }
            let count = self.width * self.height;
            let total = count * 3;
            let mut zeros: Vec<u8> = Vec::new();
            let mut i: usize = 0;
            while i < total
                invariant
                    i <= total,
                    zeros@.len() == i,
                    forall|j: int| 0 <= j < i ==> #[trigger] zeros@[j] == 0u8,
                decreases total - i,
            {
                zeros.push(0);
                i = i + 1;
            }
            proof {
                assert(zeros@ =~= zero_buffer_spec(self.led_count()));
            }
            self.buffers.insert(serial_number.clone(), zeros);
        }
        true
    }

    /// The framebuffer stored for a serial number, if any.
    pub fn get_buffer(&self, serial_number: &String) -> (r: Option<&Vec<u8>>)
        requires
            self.wf(),
        ensures
            match r {
                Some(b) => self.buffers_map().contains_key(serial_number@) && b@
                    == self.buffers_map()[serial_number@] && b@.len() == self.buffer_size(),
                None => !self.buffers_map().contains_key(serial_number@),
            },
    {
        self.buffers.get(serial_number)
    }

    /// Writes one LED's color into the framebuffer: three bytes in GRB
    /// order at `3 * index`. Rejects a serial number never connected and
    /// an index at or past the LED count, mutating nothing in either case.
    /// The caller should push the buffer to the device afterwards.
    pub fn update_led_color(&mut self, serial_number: &String, led_color: LedColor) -> (r: Result<
        (),
        LedError,
    >)
        requires
            old(self).wf(),
        ensures
            final(self).wf(),
            final(self).same_config(*old(self)),
            final(self).handles_map() == old(self).handles_map(),
            final(self).names_map() == old(self).names_map(),
            match r {
                Ok(_) => old(self).buffers_map().contains_key(serial_number@)
                    && led_color.index < old(self).led_count() && final(self).buffers_map() == old(
                    self,
                ).buffers_map().insert(
                    serial_number@,
                    write_led(
                        old(self).buffers_map()[serial_number@],
                        led_color.index as int,
                        led_color.color,
                    ),
                ),
                Err(e) => final(self).buffers_map() == old(self).buffers_map() && ((e
                    == LedError::BufferNotFound && !old(self).buffers_map().contains_key(
                    serial_number@,
                )) || (e == LedError::SizeMismatch && old(self).buffers_map().contains_key(
                    serial_number@,
                ) && led_color.index >= old(self).led_count())),
            },
    {
        if !self.buffers.contains_key(serial_number) {
            return Err(LedError::BufferNotFound);
        }
        proof {
            assert(self.width * self.height <= self.width * self.height * 3) by (nonlinear_arith)
                requires 0 < self.width, 0 < self.height;
        }
        let count = self.width * self.height;
        if led_color.index >= count {
            return Err(LedError::SizeMismatch);
        }
        let ghost before = *self;
        match self.buffers.take(serial_number) {
            Some(mut buf) => {
                proof {
                    assert(buf@.len() == self.buffer_size());
                    assert(3 * led_color.index + 3 <= 3 * (self.width * self.height))
                        by (nonlinear_arith)
                        requires led_color.index < self.width * self.height;
                    assert(3 * (self.width * self.height) == self.buffer_size())
                        by (nonlinear_arith);
                }
                let base = 3 * led_color.index;
                buf.set(base, led_color.color.g);
                buf.set(base + 1, led_color.color.r);
                buf.set(base + 2, led_color.color.b);
                self.buffers.insert(serial_number.clone(), buf);
                proof {
                    assert(self.buffers@ =~= before.buffers@.insert(
                        serial_number@,
                        write_led(
                            before.buffers@[serial_number@],
                            led_color.index as int,
                            led_color.color,
                        ),
                    ));
                }
                Ok(())
            },
            None => Err(LedError::BufferNotFound),
        }
    }

    /// Overwrites the whole framebuffer from one color per LED, in GRB
    /// order. Rejects a sequence whose length is not the LED count, and a
    /// serial number never connected, mutating nothing in either case. The
    /// caller should push the buffer to the device afterwards.
    pub fn update_led_buffer(&mut self, serial_number: &String, led_colors: &Vec<Rgb>) -> (r:
        Result<(), LedError>)
        requires
            old(self).wf(),
        ensures
            final(self).wf(),
            final(self).same_config(*old(self)),
            final(self).handles_map() == old(self).handles_map(),
            final(self).names_map() == old(self).names_map(),
            match r {
                Ok(_) => led_colors@.len() == old(self).led_count() && old(
                    self,
                ).buffers_map().contains_key(serial_number@) && final(self).buffers_map() == old(
                    self,
                ).buffers_map().insert(serial_number@, grb_bytes(led_colors@)),
                Err(e) => final(self).buffers_map() == old(self).buffers_map() && ((e
                    == LedError::SizeMismatch && led_colors@.len() != old(self).led_count()) || (e
                    == LedError::BufferNotFound && led_colors@.len() == old(self).led_count()
                    && !old(self).buffers_map().contains_key(serial_number@))),
            },
    {
        proof {
            assert(self.width * self.height <= self.width * self.height * 3) by (nonlinear_arith)
                requires 0 < self.width, 0 < self.height;
        }
        let count = self.width * self.height;
        if led_colors.len() != count {
            return Err(LedError::SizeMismatch);
        }
        if !self.buffers.contains_key(serial_number) {
            return Err(LedError::BufferNotFound);
        }
        let ghost before = *self;
        let mut bytes: Vec<u8> = Vec::new();
        let mut i: usize = 0;
        proof {
            assert(3 * count <= self.width * self.height * 3) by (nonlinear_arith)
                requires count == self.width * self.height;
        }
        while i < count
            invariant
                count == led_colors@.len(),
                3 * count <= usize::MAX,
                i <= count,
                bytes@.len() == 3 * i,
                bytes@ == grb_bytes(led_colors@.take(i as int)),
            decreases count - i,
        {
            let col = led_colors[i];
            let ghost b0 = bytes@;
            bytes.push(col.g);
            bytes.push(col.r);
            bytes.push(col.b);
            proof {
                let taken = led_colors@.take(i + 1);
                assert(taken.drop_last() =~= led_colors@.take(i as int));
                assert(taken.last() == col);
                assert(bytes@ =~= b0 + seq![col.g, col.r, col.b]);
                assert(bytes@ == grb_bytes(taken));
            }
            i = i + 1;
        }
        proof {
            assert(led_colors@.take(count as int) =~= led_colors@);
        }
        self.buffers.insert(serial_number.clone(), bytes);
        proof {
            assert(self.buffers@ =~= before.buffers@.insert(
                serial_number@,
                grb_bytes(led_colors@),
            ));
        }
        Ok(())
    }

    /// Overwrites the framebuffer with raw layout bytes. Rejects a byte
    /// count other than the buffer size, and a serial number never
    /// connected, mutating nothing in either case.
    pub fn apply_layout(&mut self, serial_number: &String, values: &Vec<u8>) -> (r: Result<
        (),
        LedError,
    >)
        requires
            old(self).wf(),
        ensures
            final(self).wf(),
            final(self).same_config(*old(self)),
            final(self).handles_map() == old(self).handles_map(),
            final(self).names_map() == old(self).names_map(),
            match r {
                Ok(_) => values@.len() == old(self).buffer_size() && old(
                    self,
                ).buffers_map().contains_key(serial_number@) && final(self).buffers_map() == old(
                    self,
                ).buffers_map().insert(serial_number@, values@),
                Err(e) => final(self).buffers_map() == old(self).buffers_map() && ((e
                    == LedError::SizeMismatch && values@.len() != old(self).buffer_size()) || (e
                    == LedError::BufferNotFound && values@.len() == old(self).buffer_size()
                    && !old(self).buffers_map().contains_key(serial_number@))),
            },
    {
        proof {
            assert((self.width * self.height) * 3 == self.width * self.height * 3)
                by (nonlinear_arith);
            assert(self.width * self.height <= self.width * self.height * 3) by (nonlinear_arith)
                requires 0 < self.width, 0 < self.height;
        }
        let size = (self.width * self.height) * 3;
        if values.len() != size {
            return Err(LedError::SizeMismatch);
        }
        if !self.buffers.contains_key(serial_number) {
            return Err(LedError::BufferNotFound);
        }
        let ghost before = *self;
        let n = values.len();
        let mut copy: Vec<u8> = Vec::new();
        let mut i: usize = 0;
        while i < n
            invariant
                n == values@.len(),
                i <= n,
                copy@.len() == i,
                forall|j: int| 0 <= j < i ==> #[trigger] copy@[j] == values@[j],
            decreases n - i,
        {
            copy.push(values[i]);
            i = i + 1;
        }
        proof {
            assert(copy@ =~= values@);
        }
        self.buffers.insert(serial_number.clone(), copy);
        proof {
            assert(self.buffers@ =~= before.buffers@.insert(serial_number@, values@));
        }
        Ok(())
    }

    /// The layout file contents for a serial number's framebuffer: the
    /// canonical encoding of its bytes. The caller writes them to disk.
    pub fn save_layout(&self, serial_number: &String) -> (r: Result<Vec<u8>, LedError>)
        requires
            self.wf(),
        ensures
            match r {
                Ok(text) => self.buffers_map().contains_key(serial_number@) && text@
                    == codec::spec_encode(self.buffers_map()[serial_number@]),
                Err(e) => e == LedError::BufferNotFound && !self.buffers_map().contains_key(
                    serial_number@,
                ),
            },
    {
        match self.buffers.get(serial_number) {
            Some(buf) => Ok(codec::encode_layout(buf)),
            None => Err(LedError::BufferNotFound),
        }
    }

    /// Loads layout file contents: parses the text, requires exactly
    /// `width * height * 3` byte values, overwrites the framebuffer, and
    /// returns the loaded values. A file that does not parse, a wrong byte
    /// count, or a serial number never connected fails without mutating
    /// the in-memory buffer.
    pub fn load_layout(&mut self, serial_number: &String, text: &Vec<u8>) -> (r: Result<
        Vec<u8>,
        LedError,
    >)
        requires
            old(self).wf(),
        ensures
            final(self).wf(),
            final(self).same_config(*old(self)),
            final(self).handles_map() == old(self).handles_map(),
            final(self).names_map() == old(self).names_map(),
            match r {
                Ok(vals) => codec::spec_parse(text@) == Some(vals@)
                    && vals@.len() == old(self).buffer_size()
                    && old(self).buffers_map().contains_key(serial_number@)
                    && final(self).buffers_map() == old(self).buffers_map().insert(
                    serial_number@,
                    vals@,
                ),
                Err(e) => final(self).buffers_map() == old(self).buffers_map()
                    && ((e == LedError::IoError && codec::spec_parse(text@) is None)
                    || (codec::spec_parse(text@) matches Some(vals)
                        && ((e == LedError::SizeMismatch && vals.len() != old(self).buffer_size())
                        || (e == LedError::BufferNotFound
                            && vals.len() == old(self).buffer_size()
                            && !old(self).buffers_map().contains_key(serial_number@))))),
            },
    {
        let parsed = match codec::parse_layout(text) {
            Some(v) => v,
            None => {
                return Err(LedError::IoError);
            },
        };
        match self.apply_layout(serial_number, &parsed) {
            Ok(_) => Ok(parsed),
            Err(e) => Err(e),
        }
    }

    /// Saving a framebuffer's layout and loading the file back restores
    /// the very same framebuffer: the saved text parses to exactly the
    /// stored bytes, whose count is right, so the load succeeds and leaves
    /// the buffers map as it was.
    pub proof fn lemma_save_load_round_trip(self, serial: Seq<char>)
        requires
            self.wf(),
            self.buffers_map().contains_key(serial),
        ensures
            codec::spec_parse(codec::spec_encode(self.buffers_map()[serial])) == Some(
                self.buffers_map()[serial],
            ),
            self.buffers_map()[serial].len() == self.buffer_size(),
            self.buffers_map().insert(serial, self.buffers_map()[serial]) == self.buffers_map(),
    {
        codec::lemma_layout_round_trip(self.buffers_map()[serial]);
        assert(self.buffers_map().insert(serial, self.buffers_map()[serial])
            =~= self.buffers_map());
    }

    /// The stored handle for an operation that requires a live connection.
    pub fn handle_for(&self, serial_number: &String) -> (r: Result<u64, LedError>)
        requires
            self.wf(),
        ensures
            match r {
                Ok(h) => self.handles_map().contains_key(serial_number@) && h
                    == self.handles_map()[serial_number@],
                Err(e) => e == LedError::DeviceNotConnected && !self.handles_map().contains_key(
                    serial_number@,
                ),
            },
    {
        match self.handles.get(serial_number) {
            Some(h) => Ok(*h),
            None => Err(LedError::DeviceNotConnected),
        }
    }

    /// Everything a full-frame push needs: the stored handle and a copy of
    /// the framebuffer bytes. Fails with the connection error when no
    /// handle is stored, and with the buffer error when no framebuffer
    /// exists.
    pub fn push_request(&self, serial_number: &String) -> (r: Result<(u64, Vec<u8>), LedError>)
        requires
            self.wf(),
        ensures
            match r {
                Ok(p) => self.handles_map().contains_key(serial_number@) && p.0
                    == self.handles_map()[serial_number@] && self.buffers_map().contains_key(
                    serial_number@,
                ) && p.1@ == self.buffers_map()[serial_number@],
                Err(e) => (e == LedError::DeviceNotConnected && !self.handles_map().contains_key(
                    serial_number@,
                )) || (e == LedError::BufferNotFound && self.handles_map().contains_key(
                    serial_number@,
                ) && !self.buffers_map().contains_key(serial_number@)),
            },
    {
        let h = match self.handles.get(serial_number) {
            Some(h) => *h,
            None => {
                return Err(LedError::DeviceNotConnected);
            },
        };
        match self.buffers.get(serial_number) {
            Some(buf) => {
                let n = buf.len();
                let mut copy: Vec<u8> = Vec::new();
                let mut i: usize = 0;
                while i < n
                    invariant
                        n == buf@.len(),
                        i <= n,
                        copy@.len() == i,
                        forall|j: int| 0 <= j < i ==> #[trigger] copy@[j] == buf@[j],
                    decreases n - i,
                {
                    copy.push(buf[i]);
                    i = i + 1;
                }
                proof {
                    assert(copy@ =~= buf@);
                }
                Ok((h, copy))
            },
            None => Err(LedError::BufferNotFound),
        }
    }
}

} // verus!
