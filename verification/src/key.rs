use vstd::prelude::*;

verus! {

#[derive(Debug, Clone, Copy, PartialEq, Eq, Hash, Structural)]
pub struct KeyId(pub u32);

#[derive(Debug, Clone, Copy, PartialEq, Eq, Structural)]
pub enum Cluster {
    Encoder,
    Alpha,
    AlphaLight,
    Nav,
    Arrow,
    Numpad,
}

/// One key of the board. Positions and sizes are in sixths of a key unit,
/// which places every key (the encoder knobs sit two thirds of a unit apart)
/// on whole numbers.
#[derive(Debug, Clone)]
pub struct Key {
    pub id: KeyId,
    pub label: &'static str,
    pub sublabel: Option<&'static str>,
    pub col: u16,
    pub row: u16,
    pub w: u16,
    pub h: u16,
    pub cluster: Cluster,
    pub is_knob: bool,
    /// The firmware note this key plays, if it is a melodic key.
    pub midi_note: Option<u8>,
    /// The encoder index, if the key is a knob.
    pub knob_index: Option<u8>,
}

/// A key as plain values.
pub struct KeyView {
    pub id: u32,
    pub label: Seq<char>,
    pub sublabel: Option<Seq<char>>,
    pub col: int,
    pub row: int,
    pub w: int,
    pub h: int,
    pub cluster: Cluster,
    pub is_knob: bool,
    pub midi_note: Option<u8>,
    pub knob_index: Option<u8>,
}

impl View for Key {
    type V = KeyView;

    open spec fn view(&self) -> KeyView {
        KeyView {
            id: self.id.0,
            label: self.label@,
            sublabel: match self.sublabel {
                Some(s) => Some(s@),
                None => None,
            },
            col: self.col as int,
            row: self.row as int,
            w: self.w as int,
            h: self.h as int,
            cluster: self.cluster,
            is_knob: self.is_knob,
            midi_note: self.midi_note,
            knob_index: self.knob_index,
        }
    }
}

/// One key unit, in sixths.
pub const UNIT: u16 = 6;

impl Key {
    /// A one-unit key with no sublabel, note or knob.
    pub fn new(id: u32, label: &'static str, col: u16, row: u16, cluster: Cluster) -> (r: Self)
        ensures
            r@ == (KeyView {
                id,
                label: label@,
                sublabel: None,
                col: col as int,
                row: row as int,
                w: UNIT as int,
                h: UNIT as int,
                cluster,
                is_knob: false,
                midi_note: None,
                knob_index: None,
            }),
    {
        Key {
            id: KeyId(id),
            label,
            sublabel: None,
            col,
            row,
            w: UNIT,
            h: UNIT,
            cluster,
            is_knob: false,
            midi_note: None,
            knob_index: None,
        }
    }

    pub fn sub(self, s: &'static str) -> (r: Self)
        ensures
            r@ == (KeyView { sublabel: Some(s@), ..self@ }),
    {
        let mut k = self;
        k.sublabel = Some(s);
        k
    }

    pub fn size(self, w: u16, h: u16) -> (r: Self)
        ensures
            r@ == (KeyView { w: w as int, h: h as int, ..self@ }),
    {
        let mut k = self;
        k.w = w;
        k.h = h;
        k
    }

    /// Marks the key as encoder knob `index`.
    pub fn knob(self, index: u8) -> (r: Self)
        ensures
            r@ == (KeyView { is_knob: true, knob_index: Some(index), ..self@ }),
    {
        let mut k = self;
        k.is_knob = true;
        k.knob_index = Some(index);
        k
    }

    /// Assigns the firmware note the key plays.
    pub fn note(self, m: u8) -> (r: Self)
        ensures
            r@ == (KeyView { midi_note: Some(m), ..self@ }),
    {
        let mut k = self;
        k.midi_note = Some(m);
        k
    }
}

} // verus!
