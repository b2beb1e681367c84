//! The user header (block 3) and the trailer (block 5): dictionaries of
//! `{TAG:VALUE}` entries. Recognised tags fill named fields; every other
//! tag is kept in an `unk_fields` list so re-encoding loses nothing.
//! Encoding emits the recognised tags in their canonical order, then the
//! unknown tags in stored order.

use vstd::prelude::*;
use vstd::string::StringExecFns;

use crate::swift_mt_parser::ParsingError;
use crate::tag_fields::append_tag_entry;
use crate::tag_fields::entries;
use crate::tag_fields::key_in;
use crate::tag_fields::known_pairs;
use crate::tag_fields::lemma_assoc_get_member;
use crate::tag_fields::lemma_combined_unique;
use crate::tag_fields::lemma_concat_assoc;
use crate::tag_fields::lemma_entries_step;
use crate::tag_fields::lemma_extract;
use crate::tag_fields::lemma_last_wins_id;
use crate::tag_fields::lemma_last_wins_props;
use crate::tag_fields::lemma_raw_pairs_entries;
use crate::tag_fields::lemma_raw_pairs_unknown;
use crate::tag_fields::lemma_raw_pairs_wf;
use crate::tag_fields::lemma_remove_keys_props;
use crate::tag_fields::pairs_wf;
use crate::tag_fields::raw_pairs_from;
use crate::tag_fields::tag_wf;
use crate::tag_fields::value_wf;
use crate::tag_fields::append_unknown_entries;
use crate::tag_fields::assoc_get;
use crate::tag_fields::fields_of;
use crate::tag_fields::lemma_assoc_get_after_remove_all;
use crate::tag_fields::opt_str_view;
use crate::tag_fields::pairs_view;
use crate::tag_fields::read_sys_block_fields;
use crate::tag_fields::remove_keys;
use crate::tag_fields::tag_entry;
use crate::tag_fields::take_tag;
use crate::tag_fields::unknown_entries;

verus! {

/// The recognised user-header tags, in canonical order.
pub open spec fn user_tags() -> Seq<Seq<char>> {
    seq![
        "103"@,
        "106"@,
        "108"@,
        "111"@,
        "113"@,
        "115"@,
        "119"@,
        "121"@,
        "165"@,
        "423"@,
        "424"@,
        "433"@,
        "434"@,
    ]
}

/// The recognised trailer tags, in canonical order.
pub open spec fn trailer_tags() -> Seq<Seq<char>> {
    seq!["PAC"@, "CHK"@, "SYS"@, "TNG"@, "PDE"@, "PDM"@, "DLM"@, "MRF"@]
}

/// The user header of block 3.
#[derive(Debug)]
pub struct UserHeader {
    /* 103 */ pub service_identifier: Option<String>,
    /* 113 */ pub banking_priority: Option<String>,
    /* 108 */ pub message_user_reference: Option<String>,
    /* 119 */ pub validation_flag: Option<String>,
    /* 423 */ pub balance_checkpoint_date_time: Option<String>,
    /* 106 */ pub mir: Option<String>,
    /* 424 */ pub related_reference: Option<String>,
    /* 111 */ pub service_type_identifier: Option<String>,
    /* 121 */ pub uetr: Option<String>,
    /* 115 */ pub payment_release_information_receiver_fin_copy: Option<String>,
    /* 165 */ pub payment_release_information_receiver_fin_inform: Option<String>,
    /* 433 */ pub screening_information_receiver: Option<String>,
    /* 434 */ pub payment_controls_information_for_receiver: Option<String>,
    pub unk_fields: Vec<(String, String)>,
}

#[verifier::ext_equal]
pub struct UserHeaderView {
    pub service_identifier: Option<Seq<char>>,
    pub banking_priority: Option<Seq<char>>,
    pub message_user_reference: Option<Seq<char>>,
    pub validation_flag: Option<Seq<char>>,
    pub balance_checkpoint_date_time: Option<Seq<char>>,
    pub mir: Option<Seq<char>>,
    pub related_reference: Option<Seq<char>>,
    pub service_type_identifier: Option<Seq<char>>,
    pub uetr: Option<Seq<char>>,
    pub payment_release_information_receiver_fin_copy: Option<Seq<char>>,
    pub payment_release_information_receiver_fin_inform: Option<Seq<char>>,
    pub screening_information_receiver: Option<Seq<char>>,
    pub payment_controls_information_for_receiver: Option<Seq<char>>,
    pub unk_fields: Seq<(Seq<char>, Seq<char>)>,
}

impl View for UserHeader {
    type V = UserHeaderView;

    open spec fn view(&self) -> UserHeaderView {
        UserHeaderView {
            service_identifier: opt_str_view(self.service_identifier),
            banking_priority: opt_str_view(self.banking_priority),
            message_user_reference: opt_str_view(self.message_user_reference),
            validation_flag: opt_str_view(self.validation_flag),
            balance_checkpoint_date_time: opt_str_view(self.balance_checkpoint_date_time),
            mir: opt_str_view(self.mir),
            related_reference: opt_str_view(self.related_reference),
            service_type_identifier: opt_str_view(self.service_type_identifier),
            uetr: opt_str_view(self.uetr),
            payment_release_information_receiver_fin_copy: opt_str_view(
                self.payment_release_information_receiver_fin_copy,
            ),
            payment_release_information_receiver_fin_inform: opt_str_view(
                self.payment_release_information_receiver_fin_inform,
            ),
            screening_information_receiver: opt_str_view(self.screening_information_receiver),
            payment_controls_information_for_receiver: opt_str_view(
                self.payment_controls_information_for_receiver,
            ),
            unk_fields: pairs_view(self.unk_fields@),
        }
    }
}

/// The user header every recognised tag absent and nothing unknown: the
/// default when block 3 is missing.
pub open spec fn empty_user_header() -> UserHeaderView {
    UserHeaderView {
        service_identifier: None,
        banking_priority: None,
        message_user_reference: None,
        validation_flag: None,
        balance_checkpoint_date_time: None,
        mir: None,
        related_reference: None,
        service_type_identifier: None,
        uetr: None,
        payment_release_information_receiver_fin_copy: None,
        payment_release_information_receiver_fin_inform: None,
        screening_information_receiver: None,
        payment_controls_information_for_receiver: None,
        unk_fields: Seq::empty(),
    }
}

/// The user header decoded from a block 3 body: each recognised tag from
/// the field dictionary, the rest as unknown fields.
pub open spec fn user_header_of(c: Seq<char>) -> UserHeaderView {
    let fs = fields_of(c);
    UserHeaderView {
        service_identifier: assoc_get(fs, "103"@),
        banking_priority: assoc_get(fs, "113"@),
        message_user_reference: assoc_get(fs, "108"@),
        validation_flag: assoc_get(fs, "119"@),
        balance_checkpoint_date_time: assoc_get(fs, "423"@),
        mir: assoc_get(fs, "106"@),
        related_reference: assoc_get(fs, "424"@),
        service_type_identifier: assoc_get(fs, "111"@),
        uetr: assoc_get(fs, "121"@),
        payment_release_information_receiver_fin_copy: assoc_get(fs, "115"@),
        payment_release_information_receiver_fin_inform: assoc_get(fs, "165"@),
        screening_information_receiver: assoc_get(fs, "433"@),
        payment_controls_information_for_receiver: assoc_get(fs, "434"@),
        unk_fields: remove_keys(fs, user_tags()),
    }
}

/// The body of an encoded user header: recognised tags in canonical
/// order, then the unknown fields.
pub open spec fn user_header_body(u: UserHeaderView) -> Seq<char> {
    tag_entry("103"@, u.service_identifier) + tag_entry("106"@, u.mir) + tag_entry(
        "108"@,
        u.message_user_reference,
    ) + tag_entry("111"@, u.service_type_identifier) + tag_entry("113"@, u.banking_priority)
        + tag_entry("115"@, u.payment_release_information_receiver_fin_copy) + tag_entry(
        "119"@,
        u.validation_flag,
    ) + tag_entry("121"@, u.uetr) + tag_entry(
        "165"@,
        u.payment_release_information_receiver_fin_inform,
    ) + tag_entry("423"@, u.balance_checkpoint_date_time) + tag_entry("424"@, u.related_reference)
        + tag_entry("433"@, u.screening_information_receiver) + tag_entry(
        "434"@,
        u.payment_controls_information_for_receiver,
    ) + unknown_entries(u.unk_fields)
}

/// The full wire form of a user header, `{3:` around the body.
pub open spec fn user_header_raw(u: UserHeaderView) -> Seq<char> {
    "{3:"@ + user_header_body(u) + "}"@
}

impl UserHeader {
    /// The default user header, used when block 3 is absent.
    pub fn new() -> (r: UserHeader)
        ensures
            r@ == empty_user_header(),
    {
        let r = UserHeader {
            service_identifier: None,
            banking_priority: None,
            message_user_reference: None,
            validation_flag: None,
            balance_checkpoint_date_time: None,
            mir: None,
            related_reference: None,
            service_type_identifier: None,
            uetr: None,
            payment_release_information_receiver_fin_copy: None,
            payment_release_information_receiver_fin_inform: None,
            screening_information_receiver: None,
            payment_controls_information_for_receiver: None,
            unk_fields: Vec::new(),
        };
        proof {
            assert(r@ =~= empty_user_header());
        }
        r
    }

    /// Decodes a block 3 body. Never fails: unrecognised tags are kept as
    /// unknown fields and the last occurrence of a repeated tag wins.
    #[verifier::rlimit(60)]
    pub fn from_raw(content: String) -> (r: Result<UserHeader, ParsingError>)
        ensures
            r matches Ok(u) && u@ == user_header_of(content@),
    {
        let mut fields = read_sys_block_fields(content);
        let ghost fs = pairs_view(fields@);
        let ghost tags = user_tags();
        proof {
            reveal_strlit("103");
            reveal_strlit("106");
            reveal_strlit("108");
            reveal_strlit("111");
            reveal_strlit("113");
            reveal_strlit("115");
            reveal_strlit("119");
            reveal_strlit("121");
            reveal_strlit("165");
            reveal_strlit("423");
            reveal_strlit("424");
            reveal_strlit("433");
            reveal_strlit("434");
            assert("103"@[0] == '1' && "103"@[1] == '0' && "103"@[2] == '3');
            assert("106"@[0] == '1' && "106"@[1] == '0' && "106"@[2] == '6');
            assert("108"@[0] == '1' && "108"@[1] == '0' && "108"@[2] == '8');
            assert("111"@[0] == '1' && "111"@[1] == '1' && "111"@[2] == '1');
            assert("113"@[0] == '1' && "113"@[1] == '1' && "113"@[2] == '3');
            assert("115"@[0] == '1' && "115"@[1] == '1' && "115"@[2] == '5');
            assert("119"@[0] == '1' && "119"@[1] == '1' && "119"@[2] == '9');
            assert("121"@[0] == '1' && "121"@[1] == '2' && "121"@[2] == '1');
            assert("165"@[0] == '1' && "165"@[1] == '6' && "165"@[2] == '5');
            assert("423"@[0] == '4' && "423"@[1] == '2' && "423"@[2] == '3');
            assert("424"@[0] == '4' && "424"@[1] == '2' && "424"@[2] == '4');
            assert("433"@[0] == '4' && "433"@[1] == '3' && "433"@[2] == '3');
            assert("434"@[0] == '4' && "434"@[1] == '3' && "434"@[2] == '4');
        }
        let service_identifier = take_tag(&mut fields, &String::from_str("103"));
        let ghost f1 = pairs_view(fields@);
        proof {
            lemma_assoc_get_after_remove_all(fs, "103"@);
            assert(tags[0] == "103"@ && tags.drop_first() =~= tags.skip(1));
            assert(remove_keys(fs, tags) == remove_keys(f1, tags.skip(1)));
        }
        let mir = take_tag(&mut fields, &String::from_str("106"));
        let ghost f2 = pairs_view(fields@);
        proof {
            lemma_assoc_get_after_remove_all(f1, "106"@);
            assert(tags.skip(1)[0] == "106"@ && tags.skip(1).drop_first() =~= tags.skip(2));
            assert(remove_keys(f1, tags.skip(1)) == remove_keys(f2, tags.skip(2)));
        }
        let message_user_reference = take_tag(&mut fields, &String::from_str("108"));
        let ghost f3 = pairs_view(fields@);
        proof {
            lemma_assoc_get_after_remove_all(f2, "108"@);
            assert(tags.skip(2)[0] == "108"@ && tags.skip(2).drop_first() =~= tags.skip(3));
            assert(remove_keys(f2, tags.skip(2)) == remove_keys(f3, tags.skip(3)));
        }
        let service_type_identifier = take_tag(&mut fields, &String::from_str("111"));
        let ghost f4 = pairs_view(fields@);
        proof {
            lemma_assoc_get_after_remove_all(f3, "111"@);
            assert(tags.skip(3)[0] == "111"@ && tags.skip(3).drop_first() =~= tags.skip(4));
            assert(remove_keys(f3, tags.skip(3)) == remove_keys(f4, tags.skip(4)));
        }
        let banking_priority = take_tag(&mut fields, &String::from_str("113"));
        let ghost f5 = pairs_view(fields@);
        proof {
            lemma_assoc_get_after_remove_all(f4, "113"@);
            assert(tags.skip(4)[0] == "113"@ && tags.skip(4).drop_first() =~= tags.skip(5));
            assert(remove_keys(f4, tags.skip(4)) == remove_keys(f5, tags.skip(5)));
        }
        let payment_release_information_receiver_fin_copy = take_tag(
            &mut fields,
            &String::from_str("115"),
        );
        let ghost f6 = pairs_view(fields@);
        proof {
            lemma_assoc_get_after_remove_all(f5, "115"@);
            assert(tags.skip(5)[0] == "115"@ && tags.skip(5).drop_first() =~= tags.skip(6));
            assert(remove_keys(f5, tags.skip(5)) == remove_keys(f6, tags.skip(6)));
        }
        let validation_flag = take_tag(&mut fields, &String::from_str("119"));
        let ghost f7 = pairs_view(fields@);
        proof {
            lemma_assoc_get_after_remove_all(f6, "119"@);
            assert(tags.skip(6)[0] == "119"@ && tags.skip(6).drop_first() =~= tags.skip(7));
            assert(remove_keys(f6, tags.skip(6)) == remove_keys(f7, tags.skip(7)));
        }
        let uetr = take_tag(&mut fields, &String::from_str("121"));
        let ghost f8 = pairs_view(fields@);
        proof {
            lemma_assoc_get_after_remove_all(f7, "121"@);
            assert(tags.skip(7)[0] == "121"@ && tags.skip(7).drop_first() =~= tags.skip(8));
            assert(remove_keys(f7, tags.skip(7)) == remove_keys(f8, tags.skip(8)));
        }
        let payment_release_information_receiver_fin_inform = take_tag(
            &mut fields,
            &String::from_str("165"),
        );
        let ghost f9 = pairs_view(fields@);
        proof {
            lemma_assoc_get_after_remove_all(f8, "165"@);
            assert(tags.skip(8)[0] == "165"@ && tags.skip(8).drop_first() =~= tags.skip(9));
            assert(remove_keys(f8, tags.skip(8)) == remove_keys(f9, tags.skip(9)));
        }
        let balance_checkpoint_date_time = take_tag(&mut fields, &String::from_str("423"));
        let ghost f10 = pairs_view(fields@);
        proof {
            lemma_assoc_get_after_remove_all(f9, "423"@);
            assert(tags.skip(9)[0] == "423"@ && tags.skip(9).drop_first() =~= tags.skip(10));
            assert(remove_keys(f9, tags.skip(9)) == remove_keys(f10, tags.skip(10)));
        }
        let related_reference = take_tag(&mut fields, &String::from_str("424"));
        let ghost f11 = pairs_view(fields@);
        proof {
            lemma_assoc_get_after_remove_all(f10, "424"@);
            assert(tags.skip(10)[0] == "424"@ && tags.skip(10).drop_first() =~= tags.skip(11));
            assert(remove_keys(f10, tags.skip(10)) == remove_keys(f11, tags.skip(11)));
        }
        let screening_information_receiver = take_tag(&mut fields, &String::from_str("433"));
        let ghost f12 = pairs_view(fields@);
        proof {
            lemma_assoc_get_after_remove_all(f11, "433"@);
            assert(tags.skip(11)[0] == "433"@ && tags.skip(11).drop_first() =~= tags.skip(12));
            assert(remove_keys(f11, tags.skip(11)) == remove_keys(f12, tags.skip(12)));
        }
        let payment_controls_information_for_receiver = take_tag(
            &mut fields,
            &String::from_str("434"),
        );
        let ghost f13 = pairs_view(fields@);
        proof {
            lemma_assoc_get_after_remove_all(f12, "434"@);
            assert(tags.skip(12)[0] == "434"@ && tags.skip(12).drop_first() =~= tags.skip(13));
            assert(remove_keys(f12, tags.skip(12)) == remove_keys(f13, tags.skip(13)));
            assert(tags.skip(13) =~= Seq::<Seq<char>>::empty());
            assert(remove_keys(f13, tags.skip(13)) == f13);
        }
        let r = UserHeader {
            service_identifier,
            banking_priority,
            message_user_reference,
            validation_flag,
            balance_checkpoint_date_time,
            mir,
            related_reference,
            service_type_identifier,
            uetr,
            payment_release_information_receiver_fin_copy,
            payment_release_information_receiver_fin_inform,
            screening_information_receiver,
            payment_controls_information_for_receiver,
            unk_fields: fields,
        };
        proof {
            assert(r@ =~= user_header_of(content@));
        }
        Ok(r)
    }

    /// Encodes this user header as `{3:...}`: recognised tags in
    /// canonical order, then the unknown fields in stored order.
    pub fn to_raw(self) -> (r: String)
        ensures
            r@ == user_header_raw(self@),
    {
        let mut body = String::new();
        append_tag_entry(&mut body, "103", &self.service_identifier);
        proof {
            assert(body@ =~= tag_entry("103"@, opt_str_view(self.service_identifier)));
        }
        append_tag_entry(&mut body, "106", &self.mir);
        append_tag_entry(&mut body, "108", &self.message_user_reference);
        append_tag_entry(&mut body, "111", &self.service_type_identifier);
        append_tag_entry(&mut body, "113", &self.banking_priority);
        append_tag_entry(&mut body, "115", &self.payment_release_information_receiver_fin_copy);
        append_tag_entry(&mut body, "119", &self.validation_flag);
        append_tag_entry(&mut body, "121", &self.uetr);
        append_tag_entry(&mut body, "165", &self.payment_release_information_receiver_fin_inform);
        append_tag_entry(&mut body, "423", &self.balance_checkpoint_date_time);
        append_tag_entry(&mut body, "424", &self.related_reference);
        append_tag_entry(&mut body, "433", &self.screening_information_receiver);
        append_tag_entry(&mut body, "434", &self.payment_controls_information_for_receiver);
        append_unknown_entries(&mut body, &self.unk_fields);
        let mut ret = String::new();
        ret.append("{3:");
        proof {
            assert(ret@ =~= "{3:"@);
        }
        ret.append(body.as_str());
        ret.append("}");
        ret
    }
}

/// The trailer of block 5.
#[derive(Debug)]
pub struct Trailer {
    pub pac: Option<String>,
    pub chk: Option<String>,
    pub sys: Option<String>,
    pub tng: Option<String>,
    pub pde: Option<String>,
    pub pdm: Option<String>,
    pub dlm: Option<String>,
    pub mrf: Option<String>,
    pub unk_fields: Vec<(String, String)>,
}

#[verifier::ext_equal]
pub struct TrailerView {
    pub pac: Option<Seq<char>>,
    pub chk: Option<Seq<char>>,
    pub sys: Option<Seq<char>>,
    pub tng: Option<Seq<char>>,
    pub pde: Option<Seq<char>>,
    pub pdm: Option<Seq<char>>,
    pub dlm: Option<Seq<char>>,
    pub mrf: Option<Seq<char>>,
    pub unk_fields: Seq<(Seq<char>, Seq<char>)>,
}

impl View for Trailer {
    type V = TrailerView;

    open spec fn view(&self) -> TrailerView {
        TrailerView {
            pac: opt_str_view(self.pac),
            chk: opt_str_view(self.chk),
            sys: opt_str_view(self.sys),
            tng: opt_str_view(self.tng),
            pde: opt_str_view(self.pde),
            pdm: opt_str_view(self.pdm),
            dlm: opt_str_view(self.dlm),
            mrf: opt_str_view(self.mrf),
            unk_fields: pairs_view(self.unk_fields@),
        }
    }
}

/// The trailer with every recognised tag absent and nothing unknown: the
/// default when block 5 is missing.
pub open spec fn empty_trailer() -> TrailerView {
    TrailerView {
        pac: None,
        chk: None,
        sys: None,
        tng: None,
        pde: None,
        pdm: None,
        dlm: None,
        mrf: None,
        unk_fields: Seq::empty(),
    }
}

/// The trailer decoded from a block 5 body.
pub open spec fn trailer_of(c: Seq<char>) -> TrailerView {
    let fs = fields_of(c);
    TrailerView {
        pac: assoc_get(fs, "PAC"@),
        chk: assoc_get(fs, "CHK"@),
        sys: assoc_get(fs, "SYS"@),
        tng: assoc_get(fs, "TNG"@),
        pde: assoc_get(fs, "PDE"@),
        pdm: assoc_get(fs, "PDM"@),
        dlm: assoc_get(fs, "DLM"@),
        mrf: assoc_get(fs, "MRF"@),
        unk_fields: remove_keys(fs, trailer_tags()),
    }
}

/// The body of an encoded trailer: recognised tags in canonical order,
/// then the unknown fields.
pub open spec fn trailer_body(t: TrailerView) -> Seq<char> {
    tag_entry("PAC"@, t.pac) + tag_entry("CHK"@, t.chk) + tag_entry("SYS"@, t.sys) + tag_entry(
        "TNG"@,
        t.tng,
    ) + tag_entry("PDE"@, t.pde) + tag_entry("PDM"@, t.pdm) + tag_entry("DLM"@, t.dlm) + tag_entry(
        "MRF"@,
        t.mrf,
    ) + unknown_entries(t.unk_fields)
}

/// The full wire form of a trailer, `{5:` around the body.
pub open spec fn trailer_raw(t: TrailerView) -> Seq<char> {
    "{5:"@ + trailer_body(t) + "}"@
}

impl Trailer {
    /// The default trailer, used when block 5 is absent.
    pub fn new() -> (r: Trailer)
        ensures
            r@ == empty_trailer(),
    {
        let r = Trailer {
            pac: None,
            chk: None,
            sys: None,
            tng: None,
            pde: None,
            pdm: None,
            dlm: None,
            mrf: None,
            unk_fields: Vec::new(),
        };
        proof {
            assert(r@ =~= empty_trailer());
        }
        r
    }

    /// Decodes a block 5 body. Never fails: unrecognised tags are kept as
    /// unknown fields and the last occurrence of a repeated tag wins.
    #[verifier::rlimit(60)]
    pub fn from_raw(msg: String) -> (r: Result<Trailer, ParsingError>)
        ensures
            r matches Ok(t) && t@ == trailer_of(msg@),
    {
        let mut fields = read_sys_block_fields(msg);
        let ghost fs = pairs_view(fields@);
        let ghost tags = trailer_tags();
        proof {
            reveal_strlit("PAC");
            reveal_strlit("CHK");
            reveal_strlit("SYS");
            reveal_strlit("TNG");
            reveal_strlit("PDE");
            reveal_strlit("PDM");
            reveal_strlit("DLM");
            reveal_strlit("MRF");
            assert("PAC"@[0] == 'P' && "PAC"@[1] == 'A' && "PAC"@[2] == 'C');
            assert("CHK"@[0] == 'C' && "CHK"@[1] == 'H' && "CHK"@[2] == 'K');
            assert("SYS"@[0] == 'S' && "SYS"@[1] == 'Y' && "SYS"@[2] == 'S');
            assert("TNG"@[0] == 'T' && "TNG"@[1] == 'N' && "TNG"@[2] == 'G');
            assert("PDE"@[0] == 'P' && "PDE"@[1] == 'D' && "PDE"@[2] == 'E');
            assert("PDM"@[0] == 'P' && "PDM"@[1] == 'D' && "PDM"@[2] == 'M');
            assert("DLM"@[0] == 'D' && "DLM"@[1] == 'L' && "DLM"@[2] == 'M');
            assert("MRF"@[0] == 'M' && "MRF"@[1] == 'R' && "MRF"@[2] == 'F');
        }
        let pac = take_tag(&mut fields, &String::from_str("PAC"));
        let ghost f1 = pairs_view(fields@);
        proof {
            lemma_assoc_get_after_remove_all(fs, "PAC"@);
            assert(tags[0] == "PAC"@ && tags.drop_first() =~= tags.skip(1));
            assert(remove_keys(fs, tags) == remove_keys(f1, tags.skip(1)));
        }
        let chk = take_tag(&mut fields, &String::from_str("CHK"));
        let ghost f2 = pairs_view(fields@);
        proof {
            lemma_assoc_get_after_remove_all(f1, "CHK"@);
            assert(tags.skip(1)[0] == "CHK"@ && tags.skip(1).drop_first() =~= tags.skip(2));
            assert(remove_keys(f1, tags.skip(1)) == remove_keys(f2, tags.skip(2)));
        }
        let sys = take_tag(&mut fields, &String::from_str("SYS"));
        let ghost f3 = pairs_view(fields@);
        proof {
            lemma_assoc_get_after_remove_all(f2, "SYS"@);
            assert(tags.skip(2)[0] == "SYS"@ && tags.skip(2).drop_first() =~= tags.skip(3));
            assert(remove_keys(f2, tags.skip(2)) == remove_keys(f3, tags.skip(3)));
        }
        let tng = take_tag(&mut fields, &String::from_str("TNG"));
        let ghost f4 = pairs_view(fields@);
        proof {
            lemma_assoc_get_after_remove_all(f3, "TNG"@);
            assert(tags.skip(3)[0] == "TNG"@ && tags.skip(3).drop_first() =~= tags.skip(4));
            assert(remove_keys(f3, tags.skip(3)) == remove_keys(f4, tags.skip(4)));
        }
        let pde = take_tag(&mut fields, &String::from_str("PDE"));
        let ghost f5 = pairs_view(fields@);
        proof {
            lemma_assoc_get_after_remove_all(f4, "PDE"@);
            assert(tags.skip(4)[0] == "PDE"@ && tags.skip(4).drop_first() =~= tags.skip(5));
            assert(remove_keys(f4, tags.skip(4)) == remove_keys(f5, tags.skip(5)));
        }
        let pdm = take_tag(&mut fields, &String::from_str("PDM"));
        let ghost f6 = pairs_view(fields@);
        proof {
            lemma_assoc_get_after_remove_all(f5, "PDM"@);
            assert(tags.skip(5)[0] == "PDM"@ && tags.skip(5).drop_first() =~= tags.skip(6));
            assert(remove_keys(f5, tags.skip(5)) == remove_keys(f6, tags.skip(6)));
        }
        let dlm = take_tag(&mut fields, &String::from_str("DLM"));
        let ghost f7 = pairs_view(fields@);
        proof {
            lemma_assoc_get_after_remove_all(f6, "DLM"@);
            assert(tags.skip(6)[0] == "DLM"@ && tags.skip(6).drop_first() =~= tags.skip(7));
            assert(remove_keys(f6, tags.skip(6)) == remove_keys(f7, tags.skip(7)));
        }
        let mrf = take_tag(&mut fields, &String::from_str("MRF"));
        let ghost f8 = pairs_view(fields@);
        proof {
            lemma_assoc_get_after_remove_all(f7, "MRF"@);
            assert(tags.skip(7)[0] == "MRF"@ && tags.skip(7).drop_first() =~= tags.skip(8));
            assert(remove_keys(f7, tags.skip(7)) == remove_keys(f8, tags.skip(8)));
            assert(tags.skip(8) =~= Seq::<Seq<char>>::empty());
            assert(remove_keys(f8, tags.skip(8)) == f8);
        }
        let r = Trailer { pac, chk, sys, tng, pde, pdm, dlm, mrf, unk_fields: fields };
        proof {
            assert(r@ =~= trailer_of(msg@));
        }
        Ok(r)
    }

    /// Encodes this trailer as `{5:...}`: recognised tags in canonical
    /// order, then the unknown fields in stored order.
    pub fn to_raw(self) -> (r: String)
        ensures
            r@ == trailer_raw(self@),
    {
        let mut body = String::new();
        append_tag_entry(&mut body, "PAC", &self.pac);
        proof {
            assert(body@ =~= tag_entry("PAC"@, opt_str_view(self.pac)));
        }
        append_tag_entry(&mut body, "CHK", &self.chk);
        append_tag_entry(&mut body, "SYS", &self.sys);
        append_tag_entry(&mut body, "TNG", &self.tng);
        append_tag_entry(&mut body, "PDE", &self.pde);
        append_tag_entry(&mut body, "PDM", &self.pdm);
        append_tag_entry(&mut body, "DLM", &self.dlm);
        append_tag_entry(&mut body, "MRF", &self.mrf);
        append_unknown_entries(&mut body, &self.unk_fields);
        let mut ret = String::new();
        ret.append("{5:");
        proof {
            assert(ret@ =~= "{5:"@);
        }
        ret.append(body.as_str());
        ret.append("}");
        ret
    }
}

/// The optional values of the recognised user tags, in canonical order.
pub open spec fn user_slots(u: UserHeaderView) -> Seq<Option<Seq<char>>> {
    seq![
        u.service_identifier,
        u.mir,
        u.message_user_reference,
        u.service_type_identifier,
        u.banking_priority,
        u.payment_release_information_receiver_fin_copy,
        u.validation_flag,
        u.uetr,
        u.payment_release_information_receiver_fin_inform,
        u.balance_checkpoint_date_time,
        u.related_reference,
        u.screening_information_receiver,
        u.payment_controls_information_for_receiver,
    ]
}

proof fn lemma_tag3_wf(t: Seq<char>, a: char, b: char, c: char)
    requires
        t.len() == 3,
        t[0] == a,
        t[1] == b,
        t[2] == c,
        a != ':' && b != ':' && c != ':',
        a != '}' && b != '}' && c != '}',
    ensures
        tag_wf(t),
{
    assert(!t.contains(':')) by {
        if t.contains(':') {
            let m = choose|m: int| 0 <= m < t.len() && t[m] == ':';
            assert(m == 0 || m == 1 || m == 2);
        }
    }
    assert(!t.contains('}')) by {
        if t.contains('}') {
            let m = choose|m: int| 0 <= m < t.len() && t[m] == '}';
            assert(m == 0 || m == 1 || m == 2);
        }
    }
}

proof fn lemma_user_tags_facts()
    ensures
        user_tags().len() == 13,
        forall|m: int| 0 <= m < 13 ==> tag_wf(#[trigger] user_tags()[m]),
        forall|m: int, n: int|
            #![trigger user_tags()[m], user_tags()[n]]
            0 <= m < n < 13 ==> user_tags()[m] != user_tags()[n],
{
    let tags = user_tags();
    reveal_strlit("103");
    reveal_strlit("106");
    reveal_strlit("108");
    reveal_strlit("111");
    reveal_strlit("113");
    reveal_strlit("115");
    reveal_strlit("119");
    reveal_strlit("121");
    reveal_strlit("165");
    reveal_strlit("423");
    reveal_strlit("424");
    reveal_strlit("433");
    reveal_strlit("434");
    assert("103"@.len() == 3 && "103"@[0] == '1' && "103"@[1] == '0' && "103"@[2] == '3');
    assert("106"@.len() == 3 && "106"@[0] == '1' && "106"@[1] == '0' && "106"@[2] == '6');
    assert("108"@.len() == 3 && "108"@[0] == '1' && "108"@[1] == '0' && "108"@[2] == '8');
    assert("111"@.len() == 3 && "111"@[0] == '1' && "111"@[1] == '1' && "111"@[2] == '1');
    assert("113"@.len() == 3 && "113"@[0] == '1' && "113"@[1] == '1' && "113"@[2] == '3');
    assert("115"@.len() == 3 && "115"@[0] == '1' && "115"@[1] == '1' && "115"@[2] == '5');
    assert("119"@.len() == 3 && "119"@[0] == '1' && "119"@[1] == '1' && "119"@[2] == '9');
    assert("121"@.len() == 3 && "121"@[0] == '1' && "121"@[1] == '2' && "121"@[2] == '1');
    assert("165"@.len() == 3 && "165"@[0] == '1' && "165"@[1] == '6' && "165"@[2] == '5');
    assert("423"@.len() == 3 && "423"@[0] == '4' && "423"@[1] == '2' && "423"@[2] == '3');
    assert("424"@.len() == 3 && "424"@[0] == '4' && "424"@[1] == '2' && "424"@[2] == '4');
    assert("433"@.len() == 3 && "433"@[0] == '4' && "433"@[1] == '3' && "433"@[2] == '3');
    assert("434"@.len() == 3 && "434"@[0] == '4' && "434"@[1] == '3' && "434"@[2] == '4');
    lemma_tag3_wf("103"@, '1', '0', '3');
    lemma_tag3_wf("106"@, '1', '0', '6');
    lemma_tag3_wf("108"@, '1', '0', '8');
    lemma_tag3_wf("111"@, '1', '1', '1');
    lemma_tag3_wf("113"@, '1', '1', '3');
    lemma_tag3_wf("115"@, '1', '1', '5');
    lemma_tag3_wf("119"@, '1', '1', '9');
    lemma_tag3_wf("121"@, '1', '2', '1');
    lemma_tag3_wf("165"@, '1', '6', '5');
    lemma_tag3_wf("423"@, '4', '2', '3');
    lemma_tag3_wf("424"@, '4', '2', '4');
    lemma_tag3_wf("433"@, '4', '3', '3');
    lemma_tag3_wf("434"@, '4', '3', '4');
    assert(tags[0] == "103"@ && tags[1] == "106"@ && tags[2] == "108"@ && tags[3] == "111"@
        && tags[4] == "113"@ && tags[5] == "115"@ && tags[6] == "119"@ && tags[7] == "121"@
        && tags[8] == "165"@ && tags[9] == "423"@ && tags[10] == "424"@ && tags[11] == "433"@
        && tags[12] == "434"@);
    assert forall|m: int| 0 <= m < 13 implies tag_wf(#[trigger] tags[m]) by {
        assert(m == 0 || m == 1 || m == 2 || m == 3 || m == 4 || m == 5 || m == 6 || m == 7 || m
            == 8 || m == 9 || m == 10 || m == 11 || m == 12);
    }
    assert forall|m: int, n: int|
        #![trigger tags[m], tags[n]]
        0 <= m < n < 13 implies tags[m] != tags[n] by {
        assert(m == 0 || m == 1 || m == 2 || m == 3 || m == 4 || m == 5 || m == 6 || m == 7 || m
            == 8 || m == 9 || m == 10 || m == 11 || m == 12);
        assert(n == 0 || n == 1 || n == 2 || n == 3 || n == 4 || n == 5 || n == 6 || n == 7 || n
            == 8 || n == 9 || n == 10 || n == 11 || n == 12);
    }
}

proof fn lemma_user_body_entries(u: UserHeaderView)
    ensures
        user_header_body(u) == entries(user_tags(), user_slots(u)) + unknown_entries(u.unk_fields),
{
    let tags = user_tags();
    let vs = user_slots(u);
    assert(tags[0] == "103"@ && vs[0] == u.service_identifier);
    assert(tags[1] == "106"@ && vs[1] == u.mir);
    assert(tags[2] == "108"@ && vs[2] == u.message_user_reference);
    assert(tags[3] == "111"@ && vs[3] == u.service_type_identifier);
    assert(tags[4] == "113"@ && vs[4] == u.banking_priority);
    assert(tags[5] == "115"@ && vs[5] == u.payment_release_information_receiver_fin_copy);
    assert(tags[6] == "119"@ && vs[6] == u.validation_flag);
    assert(tags[7] == "121"@ && vs[7] == u.uetr);
    assert(tags[8] == "165"@ && vs[8] == u.payment_release_information_receiver_fin_inform);
    assert(tags[9] == "423"@ && vs[9] == u.balance_checkpoint_date_time);
    assert(tags[10] == "424"@ && vs[10] == u.related_reference);
    assert(tags[11] == "433"@ && vs[11] == u.screening_information_receiver);
    assert(tags[12] == "434"@ && vs[12] == u.payment_controls_information_for_receiver);
    lemma_entries_step(tags, vs, 0);
    lemma_entries_step(tags, vs, 1);
    lemma_entries_step(tags, vs, 2);
    lemma_entries_step(tags, vs, 3);
    lemma_entries_step(tags, vs, 4);
    lemma_entries_step(tags, vs, 5);
    lemma_entries_step(tags, vs, 6);
    lemma_entries_step(tags, vs, 7);
    lemma_entries_step(tags, vs, 8);
    lemma_entries_step(tags, vs, 9);
    lemma_entries_step(tags, vs, 10);
    lemma_entries_step(tags, vs, 11);
    lemma_entries_step(tags, vs, 12);
    assert(tags.skip(0) =~= tags && vs.skip(0) =~= vs);
    assert(tags.skip(13).len() == 0);
    let e0 = tag_entry("103"@, u.service_identifier);
    let e1 = tag_entry("106"@, u.mir);
    let e2 = tag_entry("108"@, u.message_user_reference);
    let e3 = tag_entry("111"@, u.service_type_identifier);
    let e4 = tag_entry("113"@, u.banking_priority);
    let e5 = tag_entry("115"@, u.payment_release_information_receiver_fin_copy);
    let e6 = tag_entry("119"@, u.validation_flag);
    let e7 = tag_entry("121"@, u.uetr);
    let e8 = tag_entry("165"@, u.payment_release_information_receiver_fin_inform);
    let e9 = tag_entry("423"@, u.balance_checkpoint_date_time);
    let e10 = tag_entry("424"@, u.related_reference);
    let e11 = tag_entry("433"@, u.screening_information_receiver);
    let e12 = tag_entry("434"@, u.payment_controls_information_for_receiver);
    let r13 = entries(tags.skip(13), vs.skip(13));
    assert(r13 =~= Seq::<char>::empty());
    let r12 = entries(tags.skip(12), vs.skip(12));
    let r11 = entries(tags.skip(11), vs.skip(11));
    let r10 = entries(tags.skip(10), vs.skip(10));
    let r9 = entries(tags.skip(9), vs.skip(9));
    let r8 = entries(tags.skip(8), vs.skip(8));
    let r7 = entries(tags.skip(7), vs.skip(7));
    let r6 = entries(tags.skip(6), vs.skip(6));
    let r5 = entries(tags.skip(5), vs.skip(5));
    let r4 = entries(tags.skip(4), vs.skip(4));
    let r3 = entries(tags.skip(3), vs.skip(3));
    let r2 = entries(tags.skip(2), vs.skip(2));
    let r1 = entries(tags.skip(1), vs.skip(1));
    let r0 = entries(tags, vs);
    assert(r0 == entries(tags.skip(0), vs.skip(0)));
    // fold the right-nested sum into the left-nested one, one step at a
    // time
    lemma_concat_assoc(e0, e1, r2);
    lemma_concat_assoc(e0 + e1, e2, r3);
    lemma_concat_assoc(e0 + e1 + e2, e3, r4);
    lemma_concat_assoc(e0 + e1 + e2 + e3, e4, r5);
    lemma_concat_assoc(e0 + e1 + e2 + e3 + e4, e5, r6);
    lemma_concat_assoc(e0 + e1 + e2 + e3 + e4 + e5, e6, r7);
    lemma_concat_assoc(e0 + e1 + e2 + e3 + e4 + e5 + e6, e7, r8);
    lemma_concat_assoc(e0 + e1 + e2 + e3 + e4 + e5 + e6 + e7, e8, r9);
    lemma_concat_assoc(e0 + e1 + e2 + e3 + e4 + e5 + e6 + e7 + e8, e9, r10);
    lemma_concat_assoc(e0 + e1 + e2 + e3 + e4 + e5 + e6 + e7 + e8 + e9, e10, r11);
    lemma_concat_assoc(e0 + e1 + e2 + e3 + e4 + e5 + e6 + e7 + e8 + e9 + e10, e11, r12);
    lemma_concat_assoc(e0 + e1 + e2 + e3 + e4 + e5 + e6 + e7 + e8 + e9 + e10 + e11, e12, r13);
    let all = e0 + e1 + e2 + e3 + e4 + e5 + e6 + e7 + e8 + e9 + e10 + e11 + e12;
    assert(all + r13 =~= all);
    assert(r0 == all);
}

/// Round trip of the user header: decoding a block 3 body, encoding the
/// decoded value and decoding the encoded body again gives the same
/// value, for every input body.
pub proof fn lemma_user_header_round_trip(c: Seq<char>)
    ensures
        user_header_of(user_header_body(user_header_of(c))) == user_header_of(c),
{
    let u = user_header_of(c);
    let tags = user_tags();
    let vs = user_slots(u);
    lemma_user_tags_facts();
    let raw = raw_pairs_from(c, 0);
    lemma_raw_pairs_wf(c, 0);
    lemma_last_wins_props(raw);
    let fs = fields_of(c);
    assert(pairs_wf(fs)) by {
        assert forall|m: int| #![trigger fs[m]] 0 <= m < fs.len() implies tag_wf(fs[m].0)
            && value_wf(fs[m].1) by {
            let n = choose|n: int| 0 <= n < raw.len() && fs[m] == raw[n];
        }
    }
    let unk = remove_keys(fs, tags);
    lemma_remove_keys_props(fs, tags);
    assert(u.unk_fields == unk);
    assert(pairs_wf(unk)) by {
        assert forall|m: int| #![trigger unk[m]] 0 <= m < unk.len() implies tag_wf(unk[m].0)
            && value_wf(unk[m].1) by {
            let n = choose|n: int| 0 <= n < fs.len() && unk[m] == fs[n];
        }
    }
    assert forall|m: int| #![trigger unk[m]] 0 <= m < unk.len() implies !tags.contains(
        unk[m].0,
    ) by {
        if tags.contains(unk[m].0) {
            let n = choose|n: int| 0 <= n < tags.len() && tags[n] == unk[m].0;
            assert(!key_in(unk, tags[n]));
            assert(unk[m].0 == tags[n]);
            assert(key_in(unk, tags[n]));
        }
    }
    assert(tags[0] == "103"@ && vs[0] == u.service_identifier);
    assert(tags[1] == "106"@ && vs[1] == u.mir);
    assert(tags[2] == "108"@ && vs[2] == u.message_user_reference);
    assert(tags[3] == "111"@ && vs[3] == u.service_type_identifier);
    assert(tags[4] == "113"@ && vs[4] == u.banking_priority);
    assert(tags[5] == "115"@ && vs[5] == u.payment_release_information_receiver_fin_copy);
    assert(tags[6] == "119"@ && vs[6] == u.validation_flag);
    assert(tags[7] == "121"@ && vs[7] == u.uetr);
    assert(tags[8] == "165"@ && vs[8] == u.payment_release_information_receiver_fin_inform);
    assert(tags[9] == "423"@ && vs[9] == u.balance_checkpoint_date_time);
    assert(tags[10] == "424"@ && vs[10] == u.related_reference);
    assert(tags[11] == "433"@ && vs[11] == u.screening_information_receiver);
    assert(tags[12] == "434"@ && vs[12] == u.payment_controls_information_for_receiver);
    assert forall|m: int|
        0 <= m < vs.len() implies (#[trigger] vs[m] matches Some(x) ==> value_wf(x)) by {
        assert(m == 0 || m == 1 || m == 2 || m == 3 || m == 4 || m == 5 || m == 6 || m == 7 || m
            == 8 || m == 9 || m == 10 || m == 11 || m == 12);
        assert(vs[m] == assoc_get(fs, tags[m]));
        lemma_assoc_get_member(fs, tags[m]);
        match vs[m] {
            Some(x) => {
                let n = choose|n: int| 0 <= n < fs.len() && fs[n] == (tags[m], x);
                assert(value_wf(fs[n].1));
            },
            None => {},
        }
    }
    let body = user_header_body(u);
    lemma_user_body_entries(u);
    lemma_raw_pairs_unknown(unk);
    lemma_raw_pairs_entries(tags, vs, unknown_entries(unk), unk);
    assert(raw_pairs_from(body, 0) == known_pairs(tags, vs) + unk);
    lemma_combined_unique(tags, vs, unk);
    lemma_last_wins_id(known_pairs(tags, vs) + unk);
    assert(fields_of(body) == known_pairs(tags, vs) + unk);
    lemma_extract(tags, vs, unk);
    let u2 = user_header_of(body);
    assert(u2.service_identifier == vs[0]);
    assert(u2.mir == vs[1]);
    assert(u2.message_user_reference == vs[2]);
    assert(u2.service_type_identifier == vs[3]);
    assert(u2.banking_priority == vs[4]);
    assert(u2.payment_release_information_receiver_fin_copy == vs[5]);
    assert(u2.validation_flag == vs[6]);
    assert(u2.uetr == vs[7]);
    assert(u2.payment_release_information_receiver_fin_inform == vs[8]);
    assert(u2.balance_checkpoint_date_time == vs[9]);
    assert(u2.related_reference == vs[10]);
    assert(u2.screening_information_receiver == vs[11]);
    assert(u2.unk_fields == unk);
    assert(u2 =~= u);
}

/// The optional values of the recognised trailer tags, in canonical
/// order.
pub open spec fn trailer_slots(t: TrailerView) -> Seq<Option<Seq<char>>> {
    seq![t.pac, t.chk, t.sys, t.tng, t.pde, t.pdm, t.dlm, t.mrf]
}

proof fn lemma_trailer_tags_facts()
    ensures
        trailer_tags().len() == 8,
        forall|m: int| 0 <= m < 8 ==> tag_wf(#[trigger] trailer_tags()[m]),
        forall|m: int, n: int|
            #![trigger trailer_tags()[m], trailer_tags()[n]]
            0 <= m < n < 8 ==> trailer_tags()[m] != trailer_tags()[n],
{
    let tags = trailer_tags();
    reveal_strlit("PAC");
    reveal_strlit("CHK");
    reveal_strlit("SYS");
    reveal_strlit("TNG");
    reveal_strlit("PDE");
    reveal_strlit("PDM");
    reveal_strlit("DLM");
    reveal_strlit("MRF");
    assert("PAC"@.len() == 3 && "PAC"@[0] == 'P' && "PAC"@[1] == 'A' && "PAC"@[2] == 'C');
    assert("CHK"@.len() == 3 && "CHK"@[0] == 'C' && "CHK"@[1] == 'H' && "CHK"@[2] == 'K');
    assert("SYS"@.len() == 3 && "SYS"@[0] == 'S' && "SYS"@[1] == 'Y' && "SYS"@[2] == 'S');
    assert("TNG"@.len() == 3 && "TNG"@[0] == 'T' && "TNG"@[1] == 'N' && "TNG"@[2] == 'G');
    assert("PDE"@.len() == 3 && "PDE"@[0] == 'P' && "PDE"@[1] == 'D' && "PDE"@[2] == 'E');
    assert("PDM"@.len() == 3 && "PDM"@[0] == 'P' && "PDM"@[1] == 'D' && "PDM"@[2] == 'M');
    assert("DLM"@.len() == 3 && "DLM"@[0] == 'D' && "DLM"@[1] == 'L' && "DLM"@[2] == 'M');
    assert("MRF"@.len() == 3 && "MRF"@[0] == 'M' && "MRF"@[1] == 'R' && "MRF"@[2] == 'F');
    lemma_tag3_wf("PAC"@, 'P', 'A', 'C');
    lemma_tag3_wf("CHK"@, 'C', 'H', 'K');
    lemma_tag3_wf("SYS"@, 'S', 'Y', 'S');
    lemma_tag3_wf("TNG"@, 'T', 'N', 'G');
    lemma_tag3_wf("PDE"@, 'P', 'D', 'E');
    lemma_tag3_wf("PDM"@, 'P', 'D', 'M');
    lemma_tag3_wf("DLM"@, 'D', 'L', 'M');
    lemma_tag3_wf("MRF"@, 'M', 'R', 'F');
    assert(tags[0] == "PAC"@ && tags[1] == "CHK"@ && tags[2] == "SYS"@ && tags[3] == "TNG"@
        && tags[4] == "PDE"@ && tags[5] == "PDM"@ && tags[6] == "DLM"@ && tags[7] == "MRF"@);
    assert forall|m: int| 0 <= m < 8 implies tag_wf(#[trigger] tags[m]) by {
        assert(m == 0 || m == 1 || m == 2 || m == 3 || m == 4 || m == 5 || m == 6 || m == 7);
    }
    assert forall|m: int, n: int|
        #![trigger tags[m], tags[n]]
        0 <= m < n < 8 implies tags[m] != tags[n] by {
        assert(m == 0 || m == 1 || m == 2 || m == 3 || m == 4 || m == 5 || m == 6 || m == 7);
        assert(n == 0 || n == 1 || n == 2 || n == 3 || n == 4 || n == 5 || n == 6 || n == 7);
    }
}

proof fn lemma_trailer_body_entries(t: TrailerView)
    ensures
        trailer_body(t) == entries(trailer_tags(), trailer_slots(t)) + unknown_entries(
            t.unk_fields,
        ),
{
    let tags = trailer_tags();
    let vs = trailer_slots(t);
    assert(tags[0] == "PAC"@ && vs[0] == t.pac);
    assert(tags[1] == "CHK"@ && vs[1] == t.chk);
    assert(tags[2] == "SYS"@ && vs[2] == t.sys);
    assert(tags[3] == "TNG"@ && vs[3] == t.tng);
    assert(tags[4] == "PDE"@ && vs[4] == t.pde);
    assert(tags[5] == "PDM"@ && vs[5] == t.pdm);
    assert(tags[6] == "DLM"@ && vs[6] == t.dlm);
    assert(tags[7] == "MRF"@ && vs[7] == t.mrf);
    lemma_entries_step(tags, vs, 0);
    lemma_entries_step(tags, vs, 1);
    lemma_entries_step(tags, vs, 2);
    lemma_entries_step(tags, vs, 3);
    lemma_entries_step(tags, vs, 4);
    lemma_entries_step(tags, vs, 5);
    lemma_entries_step(tags, vs, 6);
    lemma_entries_step(tags, vs, 7);
    assert(tags.skip(0) =~= tags && vs.skip(0) =~= vs);
    assert(tags.skip(8).len() == 0);
    let e0 = tag_entry("PAC"@, t.pac);
    let e1 = tag_entry("CHK"@, t.chk);
    let e2 = tag_entry("SYS"@, t.sys);
    let e3 = tag_entry("TNG"@, t.tng);
    let e4 = tag_entry("PDE"@, t.pde);
    let e5 = tag_entry("PDM"@, t.pdm);
    let e6 = tag_entry("DLM"@, t.dlm);
    let e7 = tag_entry("MRF"@, t.mrf);
    let r8 = entries(tags.skip(8), vs.skip(8));
    assert(r8 =~= Seq::<char>::empty());
    let r7 = entries(tags.skip(7), vs.skip(7));
    let r6 = entries(tags.skip(6), vs.skip(6));
    let r5 = entries(tags.skip(5), vs.skip(5));
    let r4 = entries(tags.skip(4), vs.skip(4));
    let r3 = entries(tags.skip(3), vs.skip(3));
    let r2 = entries(tags.skip(2), vs.skip(2));
    let r1 = entries(tags.skip(1), vs.skip(1));
    let r0 = entries(tags, vs);
    assert(r0 == entries(tags.skip(0), vs.skip(0)));
    lemma_concat_assoc(e0, e1, r2);
    lemma_concat_assoc(e0 + e1, e2, r3);
    lemma_concat_assoc(e0 + e1 + e2, e3, r4);
    lemma_concat_assoc(e0 + e1 + e2 + e3, e4, r5);
    lemma_concat_assoc(e0 + e1 + e2 + e3 + e4, e5, r6);
    lemma_concat_assoc(e0 + e1 + e2 + e3 + e4 + e5, e6, r7);
    lemma_concat_assoc(e0 + e1 + e2 + e3 + e4 + e5 + e6, e7, r8);
    let all = e0 + e1 + e2 + e3 + e4 + e5 + e6 + e7;
    assert(all + r8 =~= all);
    assert(r0 == all);
}

/// Round trip of the trailer: decoding a block 5 body, encoding the
/// decoded value and decoding the encoded body again gives the same
/// value, for every input body.
pub proof fn lemma_trailer_round_trip(c: Seq<char>)
    ensures
        trailer_of(trailer_body(trailer_of(c))) == trailer_of(c),
{
    let t = trailer_of(c);
    let tags = trailer_tags();
    let vs = trailer_slots(t);
    lemma_trailer_tags_facts();
    let raw = raw_pairs_from(c, 0);
    lemma_raw_pairs_wf(c, 0);
    lemma_last_wins_props(raw);
    let fs = fields_of(c);
    assert(pairs_wf(fs)) by {
        assert forall|m: int| #![trigger fs[m]] 0 <= m < fs.len() implies tag_wf(fs[m].0)
            && value_wf(fs[m].1) by {
            let n = choose|n: int| 0 <= n < raw.len() && fs[m] == raw[n];
        }
    }
    let unk = remove_keys(fs, tags);
    lemma_remove_keys_props(fs, tags);
    assert(t.unk_fields == unk);
    assert(pairs_wf(unk)) by {
        assert forall|m: int| #![trigger unk[m]] 0 <= m < unk.len() implies tag_wf(unk[m].0)
            && value_wf(unk[m].1) by {
            let n = choose|n: int| 0 <= n < fs.len() && unk[m] == fs[n];
        }
    }
    assert forall|m: int| #![trigger unk[m]] 0 <= m < unk.len() implies !tags.contains(
        unk[m].0,
    ) by {
        if tags.contains(unk[m].0) {
            let n = choose|n: int| 0 <= n < tags.len() && tags[n] == unk[m].0;
            assert(!key_in(unk, tags[n]));
            assert(unk[m].0 == tags[n]);
            assert(key_in(unk, tags[n]));
        }
    }
    assert(tags[0] == "PAC"@ && vs[0] == t.pac);
    assert(tags[1] == "CHK"@ && vs[1] == t.chk);
    assert(tags[2] == "SYS"@ && vs[2] == t.sys);
    assert(tags[3] == "TNG"@ && vs[3] == t.tng);
    assert(tags[4] == "PDE"@ && vs[4] == t.pde);
    assert(tags[5] == "PDM"@ && vs[5] == t.pdm);
    assert(tags[6] == "DLM"@ && vs[6] == t.dlm);
    assert(tags[7] == "MRF"@ && vs[7] == t.mrf);
    assert forall|m: int|
        0 <= m < vs.len() implies (#[trigger] vs[m] matches Some(x) ==> value_wf(x)) by {
        assert(m == 0 || m == 1 || m == 2 || m == 3 || m == 4 || m == 5 || m == 6 || m == 7);
        assert(vs[m] == assoc_get(fs, tags[m]));
        lemma_assoc_get_member(fs, tags[m]);
        match vs[m] {
            Some(x) => {
                let n = choose|n: int| 0 <= n < fs.len() && fs[n] == (tags[m], x);
                assert(value_wf(fs[n].1));
            },
            None => {},
        }
    }
    let body = trailer_body(t);
    lemma_trailer_body_entries(t);
    lemma_raw_pairs_unknown(unk);
    lemma_raw_pairs_entries(tags, vs, unknown_entries(unk), unk);
    assert(raw_pairs_from(body, 0) == known_pairs(tags, vs) + unk);
    lemma_combined_unique(tags, vs, unk);
    lemma_last_wins_id(known_pairs(tags, vs) + unk);
    assert(fields_of(body) == known_pairs(tags, vs) + unk);
    lemma_extract(tags, vs, unk);
    let t2 = trailer_of(body);
    assert(t2.pac == vs[0]);
    assert(t2.chk == vs[1]);
    assert(t2.sys == vs[2]);
    assert(t2.tng == vs[3]);
    assert(t2.pde == vs[4]);
    assert(t2.pdm == vs[5]);
    assert(t2.dlm == vs[6]);
    assert(t2.mrf == vs[7]);
    assert(t2.unk_fields == unk);
    assert(t2 =~= t);
}

} // verus!
