//! Locales.

use vstd::pervasive::unreached;
use vstd::prelude::*;
use vstd::string::{StrSliceExecFns, StringExecFns};

verus! {

/// The conventions after which a locale identifier is written.
#[derive(Debug, Clone, Copy, PartialEq, Eq, PartialOrd, Ord, Hash, Structural)]
pub enum IdentifierType {
    /// The conventions of ICU.
    Icu,
    /// The conventions of CLDR.
    Cldr,
    /// The conventions of BCP 47.
    Bcp47,
}

/// A locale, known by its identifier. Its view is the identifier.
#[derive(Debug, PartialEq, Eq, PartialOrd, Ord, Hash)]
pub struct Locale {
    identifier: String,
}

impl View for Locale {
    type V = Seq<char>;

    closed spec fn view(&self) -> Seq<char> {
        self.identifier@
    }
}

/// How many currency codes `common_iso_currency_codes` lists.
pub const CURRENCY_CODE_COUNT: usize = 304;

/// The currency code at the place `index` of the list, in the order of the alphabet.
pub open spec fn iso_currency_code(index: int) -> Seq<char> {
    if index == 0 {
        "ADP"@
    } else if index == 1 {
        "AED"@
    } else if index == 2 {
        "AFA"@
    } else if index == 3 {
        "AFN"@
    } else if index == 4 {
        "ALK"@
    } else if index == 5 {
        "ALL"@
    } else if index == 6 {
        "AMD"@
    } else if index == 7 {
        "ANG"@
    } else if index == 8 {
        "AOA"@
    } else if index == 9 {
        "AOK"@
    } else if index == 10 {
        "AON"@
    } else if index == 11 {
        "AOR"@
    } else if index == 12 {
        "ARA"@
    } else if index == 13 {
        "ARL"@
    } else if index == 14 {
        "ARM"@
    } else if index == 15 {
        "ARP"@
    } else if index == 16 {
        "ARS"@
    } else if index == 17 {
        "ATS"@
    } else if index == 18 {
        "AUD"@
    } else if index == 19 {
        "AWG"@
    } else if index == 20 {
        "AZM"@
    } else if index == 21 {
        "AZN"@
    } else if index == 22 {
        "BAD"@
    } else if index == 23 {
        "BAM"@
    } else if index == 24 {
        "BAN"@
    } else if index == 25 {
        "BBD"@
    } else if index == 26 {
        "BDT"@
    } else if index == 27 {
        "BEC"@
    } else if index == 28 {
        "BEF"@
    } else if index == 29 {
        "BEL"@
    } else if index == 30 {
        "BGL"@
    } else if index == 31 {
        "BGM"@
    } else if index == 32 {
        "BGN"@
    } else if index == 33 {
        "BGO"@
    } else if index == 34 {
        "BHD"@
    } else if index == 35 {
        "BIF"@
    } else if index == 36 {
        "BMD"@
    } else if index == 37 {
        "BND"@
    } else if index == 38 {
        "BOB"@
    } else if index == 39 {
        "BOL"@
    } else if index == 40 {
        "BOP"@
    } else if index == 41 {
        "BOV"@
    } else if index == 42 {
        "BRB"@
    } else if index == 43 {
        "BRC"@
    } else if index == 44 {
        "BRE"@
    } else if index == 45 {
        "BRL"@
    } else if index == 46 {
        "BRN"@
    } else if index == 47 {
        "BRR"@
    } else if index == 48 {
        "BRZ"@
    } else if index == 49 {
        "BSD"@
    } else if index == 50 {
        "BTN"@
    } else if index == 51 {
        "BUK"@
    } else if index == 52 {
        "BWP"@
    } else if index == 53 {
        "BYB"@
    } else if index == 54 {
        "BYN"@
    } else if index == 55 {
        "BYR"@
    } else if index == 56 {
        "BZD"@
    } else if index == 57 {
        "CAD"@
    } else if index == 58 {
        "CDF"@
    } else if index == 59 {
        "CHE"@
    } else if index == 60 {
        "CHF"@
    } else if index == 61 {
        "CHW"@
    } else if index == 62 {
        "CLE"@
    } else if index == 63 {
        "CLF"@
    } else if index == 64 {
        "CLP"@
    } else if index == 65 {
        "CNH"@
    } else if index == 66 {
        "CNX"@
    } else if index == 67 {
        "CNY"@
    } else if index == 68 {
        "COP"@
    } else if index == 69 {
        "COU"@
    } else if index == 70 {
        "CRC"@
    } else if index == 71 {
        "CSD"@
    } else if index == 72 {
        "CSK"@
    } else if index == 73 {
        "CUC"@
    } else if index == 74 {
        "CUP"@
    } else if index == 75 {
        "CVE"@
    } else if index == 76 {
        "CYP"@
    } else if index == 77 {
        "CZK"@
    } else if index == 78 {
        "DDM"@
    } else if index == 79 {
        "DEM"@
    } else if index == 80 {
        "DJF"@
    } else if index == 81 {
        "DKK"@
    } else if index == 82 {
        "DOP"@
    } else if index == 83 {
        "DZD"@
    } else if index == 84 {
        "ECS"@
    } else if index == 85 {
        "ECV"@
    } else if index == 86 {
        "EEK"@
    } else if index == 87 {
        "EGP"@
    } else if index == 88 {
        "ERN"@
    } else if index == 89 {
        "ESA"@
    } else if index == 90 {
        "ESB"@
    } else if index == 91 {
        "ESP"@
    } else if index == 92 {
        "ETB"@
    } else if index == 93 {
        "EUR"@
    } else if index == 94 {
        "FIM"@
    } else if index == 95 {
        "FJD"@
    } else if index == 96 {
        "FKP"@
    } else if index == 97 {
        "FRF"@
    } else if index == 98 {
        "GBP"@
    } else if index == 99 {
        "GEK"@
    } else if index == 100 {
        "GEL"@
    } else if index == 101 {
        "GHC"@
    } else if index == 102 {
        "GHS"@
    } else if index == 103 {
        "GIP"@
    } else if index == 104 {
        "GMD"@
    } else if index == 105 {
        "GNF"@
    } else if index == 106 {
        "GNS"@
    } else if index == 107 {
        "GQE"@
    } else if index == 108 {
        "GRD"@
    } else if index == 109 {
        "GTQ"@
    } else if index == 110 {
        "GWE"@
    } else if index == 111 {
        "GWP"@
    } else if index == 112 {
        "GYD"@
    } else if index == 113 {
        "HKD"@
    } else if index == 114 {
        "HNL"@
    } else if index == 115 {
        "HRD"@
    } else if index == 116 {
        "HRK"@
    } else if index == 117 {
        "HTG"@
    } else if index == 118 {
        "HUF"@
    } else if index == 119 {
        "IDR"@
    } else if index == 120 {
        "IEP"@
    } else if index == 121 {
        "ILP"@
    } else if index == 122 {
        "ILR"@
    } else if index == 123 {
        "ILS"@
    } else if index == 124 {
        "INR"@
    } else if index == 125 {
        "IQD"@
    } else if index == 126 {
        "IRR"@
    } else if index == 127 {
        "ISJ"@
    } else if index == 128 {
        "ISK"@
    } else if index == 129 {
        "ITL"@
    } else if index == 130 {
        "JMD"@
    } else if index == 131 {
        "JOD"@
    } else if index == 132 {
        "JPY"@
    } else if index == 133 {
        "KES"@
    } else if index == 134 {
        "KGS"@
    } else if index == 135 {
        "KHR"@
    } else if index == 136 {
        "KMF"@
    } else if index == 137 {
        "KPW"@
    } else if index == 138 {
        "KRH"@
    } else if index == 139 {
        "KRO"@
    } else if index == 140 {
        "KRW"@
    } else if index == 141 {
        "KWD"@
    } else if index == 142 {
        "KYD"@
    } else if index == 143 {
        "KZT"@
    } else if index == 144 {
        "LAK"@
    } else if index == 145 {
        "LBP"@
    } else if index == 146 {
        "LKR"@
    } else if index == 147 {
        "LRD"@
    } else if index == 148 {
        "LSL"@
    } else if index == 149 {
        "LSM"@
    } else if index == 150 {
        "LTL"@
    } else if index == 151 {
        "LTT"@
    } else if index == 152 {
        "LUC"@
    } else if index == 153 {
        "LUF"@
    } else if index == 154 {
        "LUL"@
    } else if index == 155 {
        "LVL"@
    } else if index == 156 {
        "LVR"@
    } else if index == 157 {
        "LYD"@
    } else if index == 158 {
        "MAD"@
    } else if index == 159 {
        "MAF"@
    } else if index == 160 {
        "MCF"@
    } else if index == 161 {
        "MDC"@
    } else if index == 162 {
        "MDL"@
    } else if index == 163 {
        "MGA"@
    } else if index == 164 {
        "MGF"@
    } else if index == 165 {
        "MKD"@
    } else if index == 166 {
        "MKN"@
    } else if index == 167 {
        "MLF"@
    } else if index == 168 {
        "MMK"@
    } else if index == 169 {
        "MNT"@
    } else if index == 170 {
        "MOP"@
    } else if index == 171 {
        "MRO"@
    } else if index == 172 {
        "MRU"@
    } else if index == 173 {
        "MTL"@
    } else if index == 174 {
        "MTP"@
    } else if index == 175 {
        "MUR"@
    } else if index == 176 {
        "MVP"@
    } else if index == 177 {
        "MVR"@
    } else if index == 178 {
        "MWK"@
    } else if index == 179 {
        "MXN"@
    } else if index == 180 {
        "MXP"@
    } else if index == 181 {
        "MXV"@
    } else if index == 182 {
        "MYR"@
    } else if index == 183 {
        "MZE"@
    } else if index == 184 {
        "MZM"@
    } else if index == 185 {
        "MZN"@
    } else if index == 186 {
        "NAD"@
    } else if index == 187 {
        "NGN"@
    } else if index == 188 {
        "NIC"@
    } else if index == 189 {
        "NIO"@
    } else if index == 190 {
        "NLG"@
    } else if index == 191 {
        "NOK"@
    } else if index == 192 {
        "NPR"@
    } else if index == 193 {
        "NZD"@
    } else if index == 194 {
        "OMR"@
    } else if index == 195 {
        "PAB"@
    } else if index == 196 {
        "PEI"@
    } else if index == 197 {
        "PEN"@
    } else if index == 198 {
        "PES"@
    } else if index == 199 {
        "PGK"@
    } else if index == 200 {
        "PHP"@
    } else if index == 201 {
        "PKR"@
    } else if index == 202 {
        "PLN"@
    } else if index == 203 {
        "PLZ"@
    } else if index == 204 {
        "PTE"@
    } else if index == 205 {
        "PYG"@
    } else if index == 206 {
        "QAR"@
    } else if index == 207 {
        "RHD"@
    } else if index == 208 {
        "ROL"@
    } else if index == 209 {
        "RON"@
    } else if index == 210 {
        "RSD"@
    } else if index == 211 {
        "RUB"@
    } else if index == 212 {
        "RUR"@
    } else if index == 213 {
        "RWF"@
    } else if index == 214 {
        "SAR"@
    } else if index == 215 {
        "SBD"@
    } else if index == 216 {
        "SCR"@
    } else if index == 217 {
        "SDD"@
    } else if index == 218 {
        "SDG"@
    } else if index == 219 {
        "SDP"@
    } else if index == 220 {
        "SEK"@
    } else if index == 221 {
        "SGD"@
    } else if index == 222 {
        "SHP"@
    } else if index == 223 {
        "SIT"@
    } else if index == 224 {
        "SKK"@
    } else if index == 225 {
        "SLL"@
    } else if index == 226 {
        "SOS"@
    } else if index == 227 {
        "SRD"@
    } else if index == 228 {
        "SRG"@
    } else if index == 229 {
        "SSP"@
    } else if index == 230 {
        "STD"@
    } else if index == 231 {
        "STN"@
    } else if index == 232 {
        "SUR"@
    } else if index == 233 {
        "SVC"@
    } else if index == 234 {
        "SYP"@
    } else if index == 235 {
        "SZL"@
    } else if index == 236 {
        "THB"@
    } else if index == 237 {
        "TJR"@
    } else if index == 238 {
        "TJS"@
    } else if index == 239 {
        "TMM"@
    } else if index == 240 {
        "TMT"@
    } else if index == 241 {
        "TND"@
    } else if index == 242 {
        "TOP"@
    } else if index == 243 {
        "TPE"@
    } else if index == 244 {
        "TRL"@
    } else if index == 245 {
        "TRY"@
    } else if index == 246 {
        "TTD"@
    } else if index == 247 {
        "TWD"@
    } else if index == 248 {
        "TZS"@
    } else if index == 249 {
        "UAH"@
    } else if index == 250 {
        "UAK"@
    } else if index == 251 {
        "UGS"@
    } else if index == 252 {
        "UGX"@
    } else if index == 253 {
        "USD"@
    } else if index == 254 {
        "USN"@
    } else if index == 255 {
        "USS"@
    } else if index == 256 {
        "UYI"@
    } else if index == 257 {
        "UYP"@
    } else if index == 258 {
        "UYU"@
    } else if index == 259 {
        "UYW"@
    } else if index == 260 {
        "UZS"@
    } else if index == 261 {
        "VEB"@
    } else if index == 262 {
        "VEF"@
    } else if index == 263 {
        "VES"@
    } else if index == 264 {
        "VND"@
    } else if index == 265 {
        "VNN"@
    } else if index == 266 {
        "VUV"@
    } else if index == 267 {
        "WST"@
    } else if index == 268 {
        "XAF"@
    } else if index == 269 {
        "XAG"@
    } else if index == 270 {
        "XAU"@
    } else if index == 271 {
        "XBA"@
    } else if index == 272 {
        "XBB"@
    } else if index == 273 {
        "XBC"@
    } else if index == 274 {
        "XBD"@
    } else if index == 275 {
        "XCD"@
    } else if index == 276 {
        "XDR"@
    } else if index == 277 {
        "XEU"@
    } else if index == 278 {
        "XFO"@
    } else if index == 279 {
        "XFU"@
    } else if index == 280 {
        "XOF"@
    } else if index == 281 {
        "XPD"@
    } else if index == 282 {
        "XPF"@
    } else if index == 283 {
        "XPT"@
    } else if index == 284 {
        "XRE"@
    } else if index == 285 {
        "XSU"@
    } else if index == 286 {
        "XTS"@
    } else if index == 287 {
        "XUA"@
    } else if index == 288 {
        "XXX"@
    } else if index == 289 {
        "YDD"@
    } else if index == 290 {
        "YER"@
    } else if index == 291 {
        "YUD"@
    } else if index == 292 {
        "YUM"@
    } else if index == 293 {
        "YUN"@
    } else if index == 294 {
        "YUR"@
    } else if index == 295 {
        "ZAL"@
    } else if index == 296 {
        "ZAR"@
    } else if index == 297 {
        "ZMK"@
    } else if index == 298 {
        "ZMW"@
    } else if index == 299 {
        "ZRN"@
    } else if index == 300 {
        "ZRZ"@
    } else if index == 301 {
        "ZWD"@
    } else if index == 302 {
        "ZWL"@
    } else if index == 303 {
        "ZWR"@
    } else {
        Seq::empty()
    }
}

/// The part of `text` before its first full stop; all of it if it has none.
pub open spec fn before_full_stop(text: Seq<char>) -> Seq<char>
    decreases text.len(),
{
    if text.len() == 0 || text[0] == '.' {
        Seq::empty()
    } else {
        seq![text[0]].add(before_full_stop(text.drop_first()))
    }
}

/// The currency code at the place `index` of the list.
fn currency_code_at(index: usize) -> (code: &'static str)
    requires
        index < CURRENCY_CODE_COUNT,
    ensures
        code@ == iso_currency_code(index as int),
{
    match index {
        0 => "ADP",
        1 => "AED",
        2 => "AFA",
        3 => "AFN",
        4 => "ALK",
        5 => "ALL",
        6 => "AMD",
        7 => "ANG",
        8 => "AOA",
        9 => "AOK",
        10 => "AON",
        11 => "AOR",
        12 => "ARA",
        13 => "ARL",
        14 => "ARM",
        15 => "ARP",
        16 => "ARS",
        17 => "ATS",
        18 => "AUD",
        19 => "AWG",
        20 => "AZM",
        21 => "AZN",
        22 => "BAD",
        23 => "BAM",
        24 => "BAN",
        25 => "BBD",
        26 => "BDT",
        27 => "BEC",
        28 => "BEF",
        29 => "BEL",
        30 => "BGL",
        31 => "BGM",
        32 => "BGN",
        33 => "BGO",
        34 => "BHD",
        35 => "BIF",
        36 => "BMD",
        37 => "BND",
        38 => "BOB",
        39 => "BOL",
        40 => "BOP",
        41 => "BOV",
        42 => "BRB",
        43 => "BRC",
        44 => "BRE",
        45 => "BRL",
        46 => "BRN",
        47 => "BRR",
        48 => "BRZ",
        49 => "BSD",
        50 => "BTN",
        51 => "BUK",
        52 => "BWP",
        53 => "BYB",
        54 => "BYN",
        55 => "BYR",
        56 => "BZD",
        57 => "CAD",
        58 => "CDF",
        59 => "CHE",
        60 => "CHF",
        61 => "CHW",
        62 => "CLE",
        63 => "CLF",
        64 => "CLP",
        65 => "CNH",
        66 => "CNX",
        67 => "CNY",
        68 => "COP",
        69 => "COU",
        70 => "CRC",
        71 => "CSD",
        72 => "CSK",
        73 => "CUC",
        74 => "CUP",
        75 => "CVE",
        76 => "CYP",
        77 => "CZK",
        78 => "DDM",
        79 => "DEM",
        80 => "DJF",
        81 => "DKK",
        82 => "DOP",
        83 => "DZD",
        84 => "ECS",
        85 => "ECV",
        86 => "EEK",
        87 => "EGP",
        88 => "ERN",
        89 => "ESA",
        90 => "ESB",
        91 => "ESP",
        92 => "ETB",
        93 => "EUR",
        94 => "FIM",
        95 => "FJD",
        96 => "FKP",
        97 => "FRF",
        98 => "GBP",
        99 => "GEK",
        100 => "GEL",
        101 => "GHC",
        102 => "GHS",
        103 => "GIP",
        104 => "GMD",
        105 => "GNF",
        106 => "GNS",
        107 => "GQE",
        108 => "GRD",
        109 => "GTQ",
        110 => "GWE",
        111 => "GWP",
        112 => "GYD",
        113 => "HKD",
        114 => "HNL",
        115 => "HRD",
        116 => "HRK",
        117 => "HTG",
        118 => "HUF",
        119 => "IDR",
        120 => "IEP",
        121 => "ILP",
        122 => "ILR",
        123 => "ILS",
        124 => "INR",
        125 => "IQD",
        126 => "IRR",
        127 => "ISJ",
        128 => "ISK",
        129 => "ITL",
        130 => "JMD",
        131 => "JOD",
        132 => "JPY",
        133 => "KES",
        134 => "KGS",
        135 => "KHR",
        136 => "KMF",
        137 => "KPW",
        138 => "KRH",
        139 => "KRO",
        140 => "KRW",
        141 => "KWD",
        142 => "KYD",
        143 => "KZT",
        144 => "LAK",
        145 => "LBP",
        146 => "LKR",
        147 => "LRD",
        148 => "LSL",
        149 => "LSM",
        150 => "LTL",
        151 => "LTT",
        152 => "LUC",
        153 => "LUF",
        154 => "LUL",
        155 => "LVL",
        156 => "LVR",
        157 => "LYD",
        158 => "MAD",
        159 => "MAF",
        160 => "MCF",
        161 => "MDC",
        162 => "MDL",
        163 => "MGA",
        164 => "MGF",
        165 => "MKD",
        166 => "MKN",
        167 => "MLF",
        168 => "MMK",
        169 => "MNT",
        170 => "MOP",
        171 => "MRO",
        172 => "MRU",
        173 => "MTL",
        174 => "MTP",
        175 => "MUR",
        176 => "MVP",
        177 => "MVR",
        178 => "MWK",
        179 => "MXN",
        180 => "MXP",
        181 => "MXV",
        182 => "MYR",
        183 => "MZE",
        184 => "MZM",
        185 => "MZN",
        186 => "NAD",
        187 => "NGN",
        188 => "NIC",
        189 => "NIO",
        190 => "NLG",
        191 => "NOK",
        192 => "NPR",
        193 => "NZD",
        194 => "OMR",
        195 => "PAB",
        196 => "PEI",
        197 => "PEN",
        198 => "PES",
        199 => "PGK",
        200 => "PHP",
        201 => "PKR",
        202 => "PLN",
        203 => "PLZ",
        204 => "PTE",
        205 => "PYG",
        206 => "QAR",
        207 => "RHD",
        208 => "ROL",
        209 => "RON",
        210 => "RSD",
        211 => "RUB",
        212 => "RUR",
        213 => "RWF",
        214 => "SAR",
        215 => "SBD",
        216 => "SCR",
        217 => "SDD",
        218 => "SDG",
        219 => "SDP",
        220 => "SEK",
        221 => "SGD",
        222 => "SHP",
        223 => "SIT",
        224 => "SKK",
        225 => "SLL",
        226 => "SOS",
        227 => "SRD",
        228 => "SRG",
        229 => "SSP",
        230 => "STD",
        231 => "STN",
        232 => "SUR",
        233 => "SVC",
        234 => "SYP",
        235 => "SZL",
        236 => "THB",
        237 => "TJR",
        238 => "TJS",
        239 => "TMM",
        240 => "TMT",
        241 => "TND",
        242 => "TOP",
        243 => "TPE",
        244 => "TRL",
        245 => "TRY",
        246 => "TTD",
        247 => "TWD",
        248 => "TZS",
        249 => "UAH",
        250 => "UAK",
        251 => "UGS",
        252 => "UGX",
        253 => "USD",
        254 => "USN",
        255 => "USS",
        256 => "UYI",
        257 => "UYP",
        258 => "UYU",
        259 => "UYW",
        260 => "UZS",
        261 => "VEB",
        262 => "VEF",
        263 => "VES",
        264 => "VND",
        265 => "VNN",
        266 => "VUV",
        267 => "WST",
        268 => "XAF",
        269 => "XAG",
        270 => "XAU",
        271 => "XBA",
        272 => "XBB",
        273 => "XBC",
        274 => "XBD",
        275 => "XCD",
        276 => "XDR",
        277 => "XEU",
        278 => "XFO",
        279 => "XFU",
        280 => "XOF",
        281 => "XPD",
        282 => "XPF",
        283 => "XPT",
        284 => "XRE",
        285 => "XSU",
        286 => "XTS",
        287 => "XUA",
        288 => "XXX",
        289 => "YDD",
        290 => "YER",
        291 => "YUD",
        292 => "YUM",
        293 => "YUN",
        294 => "YUR",
        295 => "ZAL",
        296 => "ZAR",
        297 => "ZMK",
        298 => "ZMW",
        299 => "ZRN",
        300 => "ZRZ",
        301 => "ZWD",
        302 => "ZWL",
        303 => "ZWR",
        _ => unreached(),
    }
}

impl Locale {
    /// The locale with the given identifier.
    pub fn new(identifier: String) -> (locale: Self)
        ensures
            locale@ == identifier@,
    {
        Self { identifier }
    }

    /// The identifier of the locale.
    pub fn identifier(&self) -> (identifier: &str)
        ensures
            identifier@ == self@,
    {
        self.identifier.as_str()
    }

    /// The locale that the value `lang` of the environment's `LANG` names: the
    /// part of the value before its first full stop, or `en_US` where the
    /// environment has no such value.
    pub fn current(lang: Option<String>) -> (locale: Locale)
        ensures
            locale@ == match lang {
                Some(value) => before_full_stop(value@),
                None => "en_US"@,
            },
    {
        match lang {
            Some(value) => {
                let text = value.as_str();
                let len = text.unicode_len();
                let mut end: usize = 0;
                proof {
                    assert(text@.skip(0) =~= text@);
                    assert(text@.subrange(0, 0) =~= Seq::<char>::empty());
                }
                while end < len && text.get_char(end) != '.'
                    invariant
                        end <= len,
                        len == text@.len(),
                        before_full_stop(text@) == text@.subrange(0, end as int) + before_full_stop(
                            text@.skip(end as int),
                        ),
                    decreases len - end,
                {
                    proof {
                        let rest = text@.skip(end as int);
                        assert(rest.drop_first() =~= text@.skip(end + 1));
                        assert(text@.subrange(0, end + 1) =~= text@.subrange(0, end as int).push(
                            rest[0],
                        ));
                    }
                    end = end + 1;
                }
                proof {
                    assert(before_full_stop(text@.skip(end as int)) =~= Seq::<char>::empty());
                }
                Locale::new(String::from_str(text.substring_char(0, end)))
            },
            None => Locale::new(String::from_str("en_US")),
        }
    }

    /// The ISO 4217 codes of the currencies in common use, former ones among
    /// them, in the order of the alphabet.
    pub fn common_iso_currency_codes() -> (codes: Vec<String>)
        ensures
            codes@.len() == CURRENCY_CODE_COUNT,
            forall|i: int| 0 <= i < codes@.len() ==> (#[trigger] codes@[i])@ == iso_currency_code(i),
    {
        let mut codes: Vec<String> = Vec::new();
        let mut index: usize = 0;
        while index < CURRENCY_CODE_COUNT
            invariant
                index <= CURRENCY_CODE_COUNT,
                codes@.len() == index,
                forall|i: int| 0 <= i < codes@.len() ==> (#[trigger] codes@[i])@ == iso_currency_code(i),
            decreases CURRENCY_CODE_COUNT - index,
        {
            codes.push(String::from_str(currency_code_at(index)));
            index = index + 1;
        }
        codes
    }

    /// The identifier that names the given components: an `@`, then each key
    /// with its value as `key=value`, with `;` between one and the next, in the
    /// order in which the map hands its entries out.
    pub fn identifier_from_components(components: Components) -> (identifier: String)
        ensures
            exists|pairs: Seq<(String, String)>|
                lists(pairs, component_map(components)) && identifier@ == #[trigger] identifier_text(
                    pairs,
                ),
    {
        let pairs = components.pairs();
        Self::identifier_from_pairs(&pairs)
    }

    /// The identifier that names the given keys and values: an `@`, then each
    /// key with its value as `key=value`, with `;` between one and the next.
    pub fn identifier_from_pairs(pairs: &Vec<(String, String)>) -> (identifier: String)
        ensures
            identifier@ == identifier_text(pairs@),
    {
        let mut identifier = String::from_str("@");
        let mut index: usize = 0;
        proof {
            assert(pairs@.subrange(0, 0) =~= Seq::<(String, String)>::empty());
        }
        while index < pairs.len()
            invariant
                index <= pairs@.len(),
                identifier@ == "@"@ + components_text(pairs@.subrange(0, index as int)),
            decreases pairs@.len() - index,
        {
            let ghost done = pairs@.subrange(0, index as int);
            if index > 0 {
                identifier.append(";");
            }
            identifier.append(pairs[index].0.as_str());
            identifier.append("=");
            identifier.append(pairs[index].1.as_str());
            proof {
                let now = pairs@.subrange(0, index + 1);
                assert(now.drop_last() =~= done);
                assert(now.last() == pairs@[index as int]);
            }
            index = index + 1;
        }
        proof {
            assert(pairs@.subrange(0, pairs@.len() as int) =~= pairs@);
        }
        identifier
    }
}

/// The components in a row: each key with its value as `key=value`, with `;`
/// between one and the next.
pub open spec fn components_text(pairs: Seq<(String, String)>) -> Seq<char>
    decreases pairs.len(),
{
    if pairs.len() == 0 {
        Seq::empty()
    } else if pairs.len() == 1 {
        pairs[0].0@ + "="@ + pairs[0].1@
    } else {
        components_text(pairs.drop_last()) + ";"@ + pairs.last().0@ + "="@ + pairs.last().1@
    }
}

/// The identifier for the components in the given order.
pub open spec fn identifier_text(pairs: Seq<(String, String)>) -> Seq<char> {
    "@"@ + components_text(pairs)
}

/// Whether `pairs` holds each entry of `contents` once, in some order.
pub open spec fn lists(pairs: Seq<(String, String)>, contents: Map<Seq<char>, Seq<char>>) -> bool {
    &&& contents.dom().finite()
    &&& pairs.len() == contents.dom().len()
    &&& forall|i: int|
        0 <= i < pairs.len() ==> contents.contains_key((#[trigger] pairs[i]).0@) && contents[pairs[i].0@]
            == pairs[i].1@
    &&& forall|i: int, j: int|
        0 <= i < j < pairs.len() ==> (#[trigger] pairs[i]).0@ != (#[trigger] pairs[j]).0@
}

/// The components of a locale identifier: keys, each with a value. They are kept
/// in a `hashbrown::HashMap`, which decides the order in which they are handed
/// out.
#[verifier::external_body]
pub struct Components {
    map: hashbrown::HashMap<String, String>,
}

/// The keys that the components hold, each with its value.
pub uninterp spec fn component_map(components: Components) -> Map<Seq<char>, Seq<char>>;

impl Components {
    /// No components.
    pub fn new() -> (made: Self)
        ensures
            component_map(made).dom() == Set::<Seq<char>>::empty(),
    {
        empty_map()
    }

    /// Gives `key` the value `value` and returns the value that it had.
    pub fn insert(&mut self, key: String, value: String) -> (previous: Option<String>)
        ensures
            component_map(*final(self)) == component_map(*old(self)).insert(key@, value@),
            match previous {
                Some(text) => component_map(*old(self)).contains_key(key@) && component_map(
                    *old(self),
                )[key@] == text@,
                None => !component_map(*old(self)).contains_key(key@),
            },
    {
        map_insert(self, key, value)
    }

    /// Every key with its value, once, in the order in which the map hands its
    /// entries out.
    pub fn pairs(&self) -> (pairs: Vec<(String, String)>)
        ensures
            lists(pairs@, component_map(*self)),
    {
        map_pairs(self)
    }
}

/// `hashbrown::HashMap::new`: a map without entries.
#[verifier::external_body]
fn empty_map() -> (made: Components)
    ensures
        component_map(made).dom() == Set::<Seq<char>>::empty(),
{
    Components { map: hashbrown::HashMap::new() }
}

/// `hashbrown::HashMap::insert`: the key has the given value afterwards, the other
/// keys are as before, and the value that the key had is returned.
#[verifier::external_body]
fn map_insert(components: &mut Components, key: String, value: String) -> (previous: Option<
    String,
>)
    ensures
        component_map(*final(components)) == component_map(*old(components)).insert(key@, value@),
        match previous {
            Some(text) => component_map(*old(components)).contains_key(key@) && component_map(
                *old(components),
            )[key@] == text@,
            None => !component_map(*old(components)).contains_key(key@),
        },
{
    components.map.insert(key, value)
}

/// `hashbrown::HashMap::iter`: every entry once, as a clone, in an order that the
/// map chooses.
#[verifier::external_body]
fn map_pairs(components: &Components) -> (pairs: Vec<(String, String)>)
    ensures
        lists(pairs@, component_map(*components)),
{
    components.map.iter().map(|(key, value)| (key.clone(), value.clone())).collect()
}

} // verus!
