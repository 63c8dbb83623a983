use vstd::prelude::*;

verus! {

/// Atomic number of hydrogen.
pub const HYDROGEN: u8 = 1;

/// Atomic number of carbon.
pub const CARBON: u8 = 6;

/// Largest atomic number of a known element.
pub const MAX_ATOMIC_NUMBER: u8 = 118;

/// Whether `n` is the atomic number of a known element.
pub open spec fn valid_atomic_number(n: int) -> bool {
    1 <= n <= MAX_ATOMIC_NUMBER
}

/// The chemical symbol of the element with atomic number `n`
/// (empty outside the periodic table).
pub open spec fn symbol_of(n: u8) -> Seq<char> {
    match n {
        1 => "H"@,
        2 => "He"@,
        3 => "Li"@,
        4 => "Be"@,
        5 => "B"@,
        6 => "C"@,
        7 => "N"@,
        8 => "O"@,
        9 => "F"@,
        10 => "Ne"@,
        11 => "Na"@,
        12 => "Mg"@,
        13 => "Al"@,
        14 => "Si"@,
        15 => "P"@,
        16 => "S"@,
        17 => "Cl"@,
        18 => "Ar"@,
        19 => "K"@,
        20 => "Ca"@,
        21 => "Sc"@,
        22 => "Ti"@,
        23 => "V"@,
        24 => "Cr"@,
        25 => "Mn"@,
        26 => "Fe"@,
        27 => "Co"@,
        28 => "Ni"@,
        29 => "Cu"@,
        30 => "Zn"@,
        31 => "Ga"@,
        32 => "Ge"@,
        33 => "As"@,
        34 => "Se"@,
        35 => "Br"@,
        36 => "Kr"@,
        37 => "Rb"@,
        38 => "Sr"@,
        39 => "Y"@,
        40 => "Zr"@,
        41 => "Nb"@,
        42 => "Mo"@,
        43 => "Tc"@,
        44 => "Ru"@,
        45 => "Rh"@,
        46 => "Pd"@,
        47 => "Ag"@,
        48 => "Cd"@,
        49 => "In"@,
        50 => "Sn"@,
        51 => "Sb"@,
        52 => "Te"@,
        53 => "I"@,
        54 => "Xe"@,
        55 => "Cs"@,
        56 => "Ba"@,
        57 => "La"@,
        58 => "Ce"@,
        59 => "Pr"@,
        60 => "Nd"@,
        61 => "Pm"@,
        62 => "Sm"@,
        63 => "Eu"@,
        64 => "Gd"@,
        65 => "Tb"@,
        66 => "Dy"@,
        67 => "Ho"@,
        68 => "Er"@,
        69 => "Tm"@,
        70 => "Yb"@,
        71 => "Lu"@,
        72 => "Hf"@,
        73 => "Ta"@,
        74 => "W"@,
        75 => "Re"@,
        76 => "Os"@,
        77 => "Ir"@,
        78 => "Pt"@,
        79 => "Au"@,
        80 => "Hg"@,
        81 => "Tl"@,
        82 => "Pb"@,
        83 => "Bi"@,
        84 => "Po"@,
        85 => "At"@,
        86 => "Rn"@,
        87 => "Fr"@,
        88 => "Ra"@,
        89 => "Ac"@,
        90 => "Th"@,
        91 => "Pa"@,
        92 => "U"@,
        93 => "Np"@,
        94 => "Pu"@,
        95 => "Am"@,
        96 => "Cm"@,
        97 => "Bk"@,
        98 => "Cf"@,
        99 => "Es"@,
        100 => "Fm"@,
        101 => "Md"@,
        102 => "No"@,
        103 => "Lr"@,
        104 => "Rf"@,
        105 => "Db"@,
        106 => "Sg"@,
        107 => "Bh"@,
        108 => "Hs"@,
        109 => "Mt"@,
        110 => "Ds"@,
        111 => "Rg"@,
        112 => "Cn"@,
        113 => "Nh"@,
        114 => "Fl"@,
        115 => "Mc"@,
        116 => "Lv"@,
        117 => "Ts"@,
        118 => "Og"@,
        _ => Seq::empty(),
    }
}

/// A chemical element, identified by its atomic number.
#[derive(Clone, Copy, Debug, PartialEq, Eq, Structural)]
pub struct Element {
    pub number: u8,
}

/// Why a value could not be constructed.
#[derive(Clone, Copy, Debug, PartialEq, Eq, Structural)]
pub enum ConstructionError {
    /// The atomic number lies outside `1..=118`.
    InvalidAtomicNumber(u8),
    /// A chain or branch length of zero was given.
    EmptyChain,
}

impl Element {
    /// Well-formed elements have an atomic number in the periodic table.
    pub open spec fn wf(&self) -> bool {
        valid_atomic_number(self.number as int)
    }

    /// The element with atomic number `number`.
    pub fn new(number: u8) -> (r: Self)
        requires
            valid_atomic_number(number as int),
        ensures
            r.number == number,
            r.wf(),
    {
        Element { number }
    }

    /// The element with atomic number `number`, or an error when no such element exists.
    pub fn try_new(number: u8) -> (r: Result<Self, ConstructionError>)
        ensures
            valid_atomic_number(number as int) <==> r is Ok,
            r is Ok ==> r->Ok_0.number == number,
            r is Err ==> r->Err_0 == ConstructionError::InvalidAtomicNumber(number),
    {
        if 1 <= number && number <= MAX_ATOMIC_NUMBER {
            Ok(Element { number })
        } else {
            Err(ConstructionError::InvalidAtomicNumber(number))
        }
    }

    /// The element's chemical symbol.
    pub fn as_str(&self) -> (r: &'static str)
        requires
            self.wf(),
        ensures
            r@ == symbol_of(self.number),
    {
        match self.number {
            1 => "H",
            2 => "He",
            3 => "Li",
            4 => "Be",
            5 => "B",
            6 => "C",
            7 => "N",
            8 => "O",
            9 => "F",
            10 => "Ne",
            11 => "Na",
            12 => "Mg",
            13 => "Al",
            14 => "Si",
            15 => "P",
            16 => "S",
            17 => "Cl",
            18 => "Ar",
            19 => "K",
            20 => "Ca",
            21 => "Sc",
            22 => "Ti",
            23 => "V",
            24 => "Cr",
            25 => "Mn",
            26 => "Fe",
            27 => "Co",
            28 => "Ni",
            29 => "Cu",
            30 => "Zn",
            31 => "Ga",
            32 => "Ge",
            33 => "As",
            34 => "Se",
            35 => "Br",
            36 => "Kr",
            37 => "Rb",
            38 => "Sr",
            39 => "Y",
            40 => "Zr",
            41 => "Nb",
            42 => "Mo",
            43 => "Tc",
            44 => "Ru",
            45 => "Rh",
            46 => "Pd",
            47 => "Ag",
            48 => "Cd",
            49 => "In",
            50 => "Sn",
            51 => "Sb",
            52 => "Te",
            53 => "I",
            54 => "Xe",
            55 => "Cs",
            56 => "Ba",
            57 => "La",
            58 => "Ce",
            59 => "Pr",
            60 => "Nd",
            61 => "Pm",
            62 => "Sm",
            63 => "Eu",
            64 => "Gd",
            65 => "Tb",
            66 => "Dy",
            67 => "Ho",
            68 => "Er",
            69 => "Tm",
            70 => "Yb",
            71 => "Lu",
            72 => "Hf",
            73 => "Ta",
            74 => "W",
            75 => "Re",
            76 => "Os",
            77 => "Ir",
            78 => "Pt",
            79 => "Au",
            80 => "Hg",
            81 => "Tl",
            82 => "Pb",
            83 => "Bi",
            84 => "Po",
            85 => "At",
            86 => "Rn",
            87 => "Fr",
            88 => "Ra",
            89 => "Ac",
            90 => "Th",
            91 => "Pa",
            92 => "U",
            93 => "Np",
            94 => "Pu",
            95 => "Am",
            96 => "Cm",
            97 => "Bk",
            98 => "Cf",
            99 => "Es",
            100 => "Fm",
            101 => "Md",
            102 => "No",
            103 => "Lr",
            104 => "Rf",
            105 => "Db",
            106 => "Sg",
            107 => "Bh",
            108 => "Hs",
            109 => "Mt",
            110 => "Ds",
            111 => "Rg",
            112 => "Cn",
            113 => "Nh",
            114 => "Fl",
            115 => "Mc",
            116 => "Lv",
            117 => "Ts",
            118 => "Og",
            _ => "",
        }
    }
}

} // verus!
