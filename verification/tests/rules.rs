use candidate_agreement::{
    create, CandidateData, Context, Misbehavior, SignedStatement, Statement, Table,
    UnauthorizedStatement, ValidityDoubleVote, ValidityVote,
};
use std::collections::HashMap;

type Validator = u32;
type Group = u32;
type Digest = u64;
type Signature = (u32, u8);

// group, body
#[derive(Debug, Copy, Clone, Hash, PartialOrd, Ord, PartialEq, Eq)]
struct Candidate(u32, u64);

#[derive(Debug, PartialEq, Eq)]
struct Round {
    // validator -> the groups it is a member of
    members: HashMap<Validator, Vec<Group>>,
    // validator -> the groups it guarantees availability for
    guarantors: HashMap<Validator, Vec<Group>>,
    // validity and availability votes that every group asks for
    needed: (usize, usize),
}

impl Round {
    // validators 1..=9 are members of group 2 and of group 5, validators
    // 11..=19 guarantee availability for both
    fn new(needed: (usize, usize)) -> Round {
        let mut members = HashMap::new();
        let mut guarantors = HashMap::new();
        for v in 1..10 {
            members.insert(v, vec![2, 5]);
        }
        for v in 11..20 {
            guarantors.insert(v, vec![2, 5]);
        }
        Round { members, guarantors, needed }
    }
}

impl Context for Round {
    type ValidatorId = Validator;
    type Digest = Digest;
    type Candidate = Candidate;
    type GroupId = Group;
    type Signature = Signature;

    fn digest_of(&self, candidate: Candidate) -> Digest {
        self.candidate_digest(&candidate)
    }

    fn group_of(&self, candidate: Candidate) -> Group {
        self.candidate_group(&candidate)
    }

    fn member(&self, validator: Validator, group: Group) -> bool {
        self.is_member_of(&validator, &group)
    }

    fn availability_guarantor(&self, validator: Validator, group: Group) -> bool {
        self.is_availability_guarantor_of(&validator, &group)
    }

    fn signer_of(&self, statement: SignedStatement<Self>) -> Option<Validator> {
        self.statement_signer(&statement)
    }

    fn thresholds(&self, group: Group) -> (usize, usize) {
        self.requisite_votes(&group)
    }

    fn candidate_digest(&self, candidate: &Candidate) -> Digest {
        u64::from(candidate.0) * 1_000_000 + candidate.1
    }

    fn candidate_group(&self, candidate: &Candidate) -> Group {
        candidate.0
    }

    fn is_member_of(&self, validator: &Validator, group: &Group) -> bool {
        self.members.get(validator).map(|groups| groups.contains(group)).unwrap_or(false)
    }

    fn is_availability_guarantor_of(&self, validator: &Validator, group: &Group) -> bool {
        self.guarantors.get(validator).map(|groups| groups.contains(group)).unwrap_or(false)
    }

    // a signature names its signer; signer 0 stands for a signature that
    // does not verify
    fn statement_signer(&self, statement: &SignedStatement<Self>) -> Option<Validator> {
        if statement.signature.0 == 0 {
            None
        } else {
            Some(statement.signature.0)
        }
    }

    fn requisite_votes(&self, _group: &Group) -> (usize, usize) {
        self.needed
    }

    fn digest_fixes_group(&self, _a: Candidate, _b: Candidate) {}

    fn values_are_plain() {}
}

fn digest(candidate: Candidate) -> Digest {
    u64::from(candidate.0) * 1_000_000 + candidate.1
}

fn proposal(from: Validator, candidate: Candidate) -> SignedStatement<Round> {
    SignedStatement { statement: Statement::Candidate(candidate), signature: (from, 0) }
}

fn valid(from: Validator, candidate: Candidate) -> SignedStatement<Round> {
    SignedStatement { statement: Statement::Valid(digest(candidate)), signature: (from, 0) }
}

fn invalid(from: Validator, candidate: Candidate) -> SignedStatement<Round> {
    SignedStatement { statement: Statement::Invalid(digest(candidate)), signature: (from, 0) }
}

fn available(from: Validator, candidate: Candidate) -> SignedStatement<Round> {
    SignedStatement { statement: Statement::Available(digest(candidate)), signature: (from, 0) }
}

// everything about a table that can be seen from outside
fn seen(
    table: &Table<Round>,
    context: &Round,
) -> (Vec<Candidate>, Vec<(Group, Candidate, Vec<Validator>, bool)>, Vec<Validator>) {
    let mut records = Vec::new();
    for group in [2, 5, 7] {
        for data in table.candidates_in_group(group) {
            let mut voters = data.voted_valid_by();
            voters.sort();
            records.push((*data.group(), *data.candidate(), voters, data.indicated_bad()));
        }
    }
    records.sort();
    let mut accused: Vec<Validator> = table.detected_misbehavior().keys().cloned().collect();
    accused.sort();
    (table.proposed_candidates(context), records, accused)
}

// a table in which `candidate` has been proposed by `from`, and has two
// more votes for its validity and two for its availability
fn supported(table: &mut Table<Round>, context: &Round, from: Validator, candidate: Candidate) {
    table.import_statement(context, proposal(from, candidate));
    for v in 7..9 {
        table.import_statement(context, valid(v, candidate));
    }
    for v in 11..13 {
        table.import_statement(context, available(v, candidate));
    }
}

#[test]
fn new_table_is_empty() {
    let context = Round::new((0, 0));
    let table: Table<Round> = create();
    assert!(table.detected_misbehavior().is_empty());
    assert!(table.proposed_candidates(&context).is_empty());
    assert!(table.candidates_in_group(2).is_empty());

    let table: Table<Round> = Table::default();
    assert!(table.detected_misbehavior().is_empty());
    assert!(table.proposed_candidates(&context).is_empty());
}

#[test]
fn statement_with_bad_signature_is_dropped() {
    let context = Round::new((1, 0));
    let mut table = create();
    table.import_statement(
        &context,
        SignedStatement { statement: Statement::Candidate(Candidate(2, 7)), signature: (0, 0) },
    );
    assert!(table.detected_misbehavior().is_empty());
    assert!(table.candidates_in_group(2).is_empty());
    assert!(table.proposed_candidates(&context).is_empty());
}

#[test]
fn vote_on_unseen_candidate_is_dropped() {
    let context = Round::new((1, 0));
    let mut table = create();
    table.import_statement(&context, valid(1, Candidate(2, 7)));
    table.import_statement(&context, invalid(2, Candidate(2, 7)));
    table.import_statement(&context, available(11, Candidate(2, 7)));
    // not even a validator without any standing is blamed for it
    table.import_statement(&context, valid(40, Candidate(2, 7)));
    assert!(table.detected_misbehavior().is_empty());
    assert!(table.candidates_in_group(2).is_empty());
    assert!(!table.has_candidate(&digest(Candidate(2, 7))));

    // the votes were lost, not kept for later
    table.import_statement(&context, proposal(3, Candidate(2, 7)));
    assert!(table.has_candidate(&digest(Candidate(2, 7))));
    assert!(!table.has_candidate(&digest(Candidate(2, 8))));
    let records = table.candidates_in_group(2);
    assert_eq!(records.len(), 1);
    assert_eq!(records[0].voted_valid_by(), vec![3]);
    assert!(!records[0].indicated_bad());
    assert!(!records[0].can_be_included(1, 1));
    assert!(records[0].can_be_included(1, 0));
}

#[test]
fn record_carries_group_of_its_candidate() {
    let context = Round::new((1, 0));
    let mut table = create();
    table.import_statement(&context, proposal(1, Candidate(2, 7)));
    table.import_statement(&context, proposal(2, Candidate(5, 7)));
    table.import_statement(&context, proposal(3, Candidate(5, 8)));
    // validator 30 is no member of group 7
    table.import_statement(&context, proposal(30, Candidate(7, 1)));

    for group in [2, 5, 7] {
        for data in table.candidates_in_group(group) {
            assert_eq!(*data.group(), group);
            assert_eq!(context.candidate_group(data.candidate()), group);
        }
    }
    assert_eq!(table.candidates_in_group(2).len(), 1);
    assert_eq!(table.candidates_in_group(5).len(), 2);
    assert_eq!(table.candidates_in_group(7).len(), 0);
    assert_eq!(*table.candidates_in_group(2)[0].candidate(), Candidate(2, 7));
}

#[test]
fn proposer_is_taken_to_vote_valid() {
    let context = Round::new((1, 0));
    let mut table = create();
    table.import_statement(&context, proposal(1, Candidate(2, 7)));
    let records = table.candidates_in_group(2);
    assert_eq!(records[0].voted_valid_by(), vec![1]);
    assert_eq!(table.proposed_candidates(&context), vec![Candidate(2, 7)]);
}

#[test]
fn issue_and_invalidity_is_misbehavior() {
    let context = Round::new((1, 0));
    let mut table = create();
    table.import_statement(&context, proposal(1, Candidate(2, 7)));
    table.import_statement(
        &context,
        SignedStatement {
            statement: Statement::Invalid(digest(Candidate(2, 7))),
            signature: (1, 9),
        },
    );
    assert_eq!(
        table.detected_misbehavior().get(&1).unwrap(),
        &Misbehavior::ValidityDoubleVote(ValidityDoubleVote::IssuedAndInvalidity(
            (Candidate(2, 7), (1, 0)),
            (digest(Candidate(2, 7)), (1, 9)),
        ))
    );
    // the vote that came first stays, and the candidate was never called bad
    let records = table.candidates_in_group(2);
    assert_eq!(records[0].voted_valid_by(), vec![1]);
    assert!(!records[0].indicated_bad());
}

#[test]
fn vote_and_then_issue_is_misbehavior() {
    let context = Round::new((1, 0));
    let mut table = create();
    table.import_statement(&context, proposal(1, Candidate(2, 7)));
    // validator 2 votes on the candidate before proposing the same
    table.import_statement(
        &context,
        SignedStatement {
            statement: Statement::Invalid(digest(Candidate(2, 7))),
            signature: (2, 4),
        },
    );
    assert!(table.detected_misbehavior().is_empty());
    table.import_statement(&context, proposal(2, Candidate(2, 7)));
    assert_eq!(
        table.detected_misbehavior().get(&2).unwrap(),
        &Misbehavior::ValidityDoubleVote(ValidityDoubleVote::IssuedAndInvalidity(
            (Candidate(2, 7), (2, 0)),
            (digest(Candidate(2, 7)), (2, 4)),
        ))
    );
    let records = table.candidates_in_group(2);
    assert!(records[0].indicated_bad());
    assert_eq!(records[0].voted_valid_by(), vec![1]);
}

#[test]
fn invalidity_and_then_validity_is_misbehavior() {
    let context = Round::new((1, 0));
    let mut table = create();
    table.import_statement(&context, proposal(1, Candidate(2, 7)));
    table.import_statement(
        &context,
        SignedStatement {
            statement: Statement::Invalid(digest(Candidate(2, 7))),
            signature: (2, 4),
        },
    );
    table.import_statement(
        &context,
        SignedStatement { statement: Statement::Valid(digest(Candidate(2, 7))), signature: (2, 6) },
    );
    // the signature under the vote for validity comes first
    assert_eq!(
        table.detected_misbehavior().get(&2).unwrap(),
        &Misbehavior::ValidityDoubleVote(ValidityDoubleVote::ValidityAndInvalidity(
            digest(Candidate(2, 7)),
            (2, 6),
            (2, 4),
        ))
    );
}

#[test]
fn same_vote_under_another_signature_is_no_misbehavior() {
    let context = Round::new((1, 0));
    let mut table = create();
    table.import_statement(&context, proposal(1, Candidate(2, 7)));
    for mark in [1, 2] {
        table.import_statement(
            &context,
            SignedStatement {
                statement: Statement::Valid(digest(Candidate(2, 7))),
                signature: (2, mark),
            },
        );
    }
    assert!(table.detected_misbehavior().is_empty());
    let mut voters = table.candidates_in_group(2)[0].voted_valid_by();
    voters.sort();
    assert_eq!(voters, vec![1, 2]);
}

#[test]
fn first_vote_stays_and_keeps_giving_the_same_evidence() {
    let context = Round::new((1, 0));
    let mut table = create();
    table.import_statement(&context, proposal(1, Candidate(2, 7)));
    table.import_statement(&context, valid(2, Candidate(2, 7)));
    table.import_statement(&context, invalid(2, Candidate(2, 7)));
    let first = table.drain_misbehavior();
    table.import_statement(&context, invalid(2, Candidate(2, 7)));
    let second = table.drain_misbehavior();
    assert_eq!(first, second);
    assert_eq!(first.len(), 1);
    assert!(!table.candidates_in_group(2)[0].indicated_bad());
}

#[test]
fn unauthorized_invalidity_vote_is_misbehavior() {
    let context = Round::new((1, 0));
    let mut table = create();
    table.import_statement(&context, proposal(1, Candidate(2, 7)));
    // validator 11 guarantees availability for group 2 and is no member
    table.import_statement(&context, invalid(11, Candidate(2, 7)));
    assert_eq!(
        table.detected_misbehavior().get(&11).unwrap(),
        &Misbehavior::UnauthorizedStatement(UnauthorizedStatement {
            statement: invalid(11, Candidate(2, 7)),
        })
    );
    assert!(!table.candidates_in_group(2)[0].indicated_bad());
    // and validator 2 is a member and guarantees nothing
    table.import_statement(&context, available(2, Candidate(2, 7)));
    assert_eq!(
        table.detected_misbehavior().get(&2).unwrap(),
        &Misbehavior::UnauthorizedStatement(UnauthorizedStatement {
            statement: available(2, Candidate(2, 7)),
        })
    );
    assert!(!table.candidates_in_group(2)[0].can_be_included(0, 1));
}

#[test]
fn later_misbehavior_takes_the_place_of_earlier() {
    let context = Round::new((1, 0));
    let mut table = create();
    table.import_statement(&context, proposal(1, Candidate(2, 7)));
    table.import_statement(&context, proposal(1, Candidate(2, 8)));
    assert!(matches!(
        table.detected_misbehavior().get(&1).unwrap(),
        Misbehavior::MultipleCandidates(_)
    ));
    table.import_statement(&context, available(1, Candidate(2, 7)));
    assert_eq!(table.detected_misbehavior().len(), 1);
    assert_eq!(
        table.detected_misbehavior().get(&1).unwrap(),
        &Misbehavior::UnauthorizedStatement(UnauthorizedStatement {
            statement: available(1, Candidate(2, 7)),
        })
    );
}

#[test]
fn second_candidate_gets_no_record() {
    let context = Round::new((1, 0));
    let mut table = create();
    table.import_statement(&context, proposal(1, Candidate(2, 7)));
    table.import_statement(&context, proposal(1, Candidate(2, 8)));
    assert_eq!(table.candidates_in_group(2).len(), 1);
    assert_eq!(table.proposed_candidates(&context), vec![Candidate(2, 7)]);
}

#[test]
fn draining_hands_over_and_clears() {
    let context = Round::new((1, 0));
    let mut table = create();
    table.import_statement(&context, proposal(1, Candidate(2, 7)));
    table.import_statement(&context, proposal(1, Candidate(2, 8)));
    table.import_statement(&context, proposal(30, Candidate(2, 9)));

    let drained = table.drain_misbehavior();
    assert_eq!(drained.len(), 2);
    assert!(drained.contains_key(&1));
    assert!(drained.contains_key(&30));
    assert!(table.detected_misbehavior().is_empty());
    assert!(table.drain_misbehavior().is_empty());
    // the votes are untouched
    assert_eq!(table.proposed_candidates(&context), vec![Candidate(2, 7)]);

    table.import_statement(&context, proposal(1, Candidate(2, 8)));
    assert_eq!(table.detected_misbehavior().len(), 1);
}

#[test]
fn importing_twice_changes_nothing() {
    let context = Round::new((2, 1));
    let statements = vec![
        proposal(1, Candidate(2, 7)),
        valid(2, Candidate(2, 7)),
        invalid(3, Candidate(2, 7)),
        available(11, Candidate(2, 7)),
        // those that give evidence, too
        proposal(1, Candidate(2, 8)),
        invalid(2, Candidate(2, 7)),
        available(4, Candidate(2, 7)),
        valid(40, Candidate(2, 7)),
    ];
    let mut table = create();
    for statement in statements {
        let again = SignedStatement {
            statement: match &statement.statement {
                Statement::Candidate(c) => Statement::Candidate(*c),
                Statement::Valid(d) => Statement::Valid(*d),
                Statement::Invalid(d) => Statement::Invalid(*d),
                Statement::Available(d) => Statement::Available(*d),
            },
            signature: statement.signature,
        };
        table.import_statement(&context, statement);
        let once = seen(&table, &context);
        let evidence = table.drain_misbehavior();
        table.import_statement(&context, again);
        assert_eq!(seen(&table, &context).0, once.0);
        assert_eq!(seen(&table, &context).1, once.1);
        // a statement that gave evidence gives the same again
        for (validator, misbehavior) in table.detected_misbehavior() {
            assert_eq!(evidence.get(validator), Some(misbehavior));
        }
    }
}

#[test]
fn availability_vote_can_be_repeated() {
    let context = Round::new((1, 1));
    let mut table = create();
    table.import_statement(&context, proposal(1, Candidate(2, 7)));
    table.import_statement(&context, available(11, Candidate(2, 7)));
    table.import_statement(
        &context,
        SignedStatement {
            statement: Statement::Available(digest(Candidate(2, 7))),
            signature: (11, 5),
        },
    );
    assert!(table.detected_misbehavior().is_empty());
    let records = table.candidates_in_group(2);
    assert!(records[0].can_be_included(1, 1));
    assert!(!records[0].can_be_included(1, 2));
}

#[test]
fn thresholds_are_inclusive() {
    let mut table = create();
    supported(&mut table, &Round::new((3, 2)), 1, Candidate(2, 7));
    // three votes for validity (the proposer's among them), two for
    // availability
    assert_eq!(table.proposed_candidates(&Round::new((3, 2))), vec![Candidate(2, 7)]);
    assert_eq!(table.proposed_candidates(&Round::new((0, 0))), vec![Candidate(2, 7)]);
    assert!(table.proposed_candidates(&Round::new((4, 2))).is_empty());
    assert!(table.proposed_candidates(&Round::new((3, 3))).is_empty());
}

#[test]
fn votes_against_count_as_votes_and_bar_inclusion() {
    let context = Round::new((3, 0));
    let mut table = create();
    table.import_statement(&context, proposal(1, Candidate(2, 7)));
    table.import_statement(&context, valid(2, Candidate(2, 7)));
    assert!(table.proposed_candidates(&context).is_empty());
    table.import_statement(&context, invalid(3, Candidate(2, 7)));
    let records = table.candidates_in_group(2);
    // the third vote is there, and is what keeps the candidate out
    assert!(records[0].indicated_bad());
    assert!(!records[0].can_be_included(3, 0));
    assert!(!records[0].can_be_included(0, 0));
    let mut voters = records[0].voted_valid_by();
    voters.sort();
    assert_eq!(voters, vec![1, 2]);
    assert!(table.proposed_candidates(&context).is_empty());
}

#[test]
fn one_candidate_per_group_in_order_of_groups() {
    let context = Round::new((3, 2));
    let mut table = create();
    // group 5 is heard of first, and its lesser candidate first
    supported(&mut table, &context, 1, Candidate(5, 10));
    supported(&mut table, &context, 2, Candidate(5, 30));
    supported(&mut table, &context, 3, Candidate(5, 20));
    supported(&mut table, &context, 4, Candidate(2, 99));
    supported(&mut table, &context, 5, Candidate(2, 98));
    // a candidate that comes after all others and lacks a vote
    table.import_statement(&context, proposal(6, Candidate(5, 40)));

    assert_eq!(table.proposed_candidates(&context), vec![Candidate(2, 99), Candidate(5, 30)]);

    // once the best of a group is called bad, the next best takes its place
    table.import_statement(&context, invalid(9, Candidate(5, 30)));
    assert_eq!(table.proposed_candidates(&context), vec![Candidate(2, 99), Candidate(5, 20)]);

    // a candidate is put forward if and only if it can be included and none
    // of its group that can be included comes after it
    let chosen = table.proposed_candidates(&context);
    for group in [2, 5] {
        let records = table.candidates_in_group(group);
        let best = records
            .iter()
            .filter(|data| data.can_be_included(3, 2))
            .map(|data| *data.candidate())
            .max();
        for data in records {
            assert_eq!(chosen.contains(data.candidate()), best == Some(*data.candidate()));
        }
    }
}

#[test]
fn order_of_statements_does_not_change_proposal() {
    let context = Round::new((3, 2));
    let mut start = create();
    table_with_candidates(&mut start, &context);
    let before = seen(&start, &context);

    // votes of different validators on candidates already on record, and a
    // proposal of a validator heard for the first time
    let votes = |order: &[usize]| {
        let mut table = create();
        table_with_candidates(&mut table, &context);
        for i in order {
            let statement = match i {
                0 => valid(7, Candidate(2, 1)),
                1 => valid(8, Candidate(2, 1)),
                2 => available(11, Candidate(2, 1)),
                3 => available(12, Candidate(2, 1)),
                4 => invalid(9, Candidate(5, 3)),
                5 => available(11, Candidate(5, 2)),
                6 => valid(7, Candidate(5, 2)),
                _ => proposal(6, Candidate(5, 4)),
            };
            table.import_statement(&context, statement);
        }
        seen(&table, &context)
    };

    let forwards = votes(&[0, 1, 2, 3, 4, 5, 6, 7]);
    assert_ne!(forwards, before);
    assert_eq!(forwards.0, vec![Candidate(2, 1)]);
    assert_eq!(votes(&[7, 6, 5, 4, 3, 2, 1, 0]), forwards);
    assert_eq!(votes(&[3, 7, 0, 5, 1, 6, 2, 4]), forwards);
    assert_eq!(votes(&[4, 2, 6, 0, 7, 3, 5, 1]), forwards);
    // nor does it matter how often a statement is heard
    assert_eq!(votes(&[0, 0, 1, 2, 3, 4, 5, 6, 7, 7]), forwards);
    assert_eq!(votes(&[7, 4, 6, 5, 4, 3, 2, 7, 1, 0, 4]), forwards);
}

fn table_with_candidates(table: &mut Table<Round>, context: &Round) {
    table.import_statement(context, proposal(1, Candidate(2, 1)));
    table.import_statement(context, proposal(2, Candidate(5, 2)));
    table.import_statement(context, proposal(3, Candidate(5, 3)));
}

#[test]
fn order_matters_where_statements_conflict() {
    let context = Round::new((1, 0));
    // one validator, two votes on one candidate: the first stays
    let mut table = create();
    table.import_statement(&context, proposal(1, Candidate(2, 1)));
    table.import_statement(&context, valid(2, Candidate(2, 1)));
    table.import_statement(&context, invalid(2, Candidate(2, 1)));
    assert_eq!(table.proposed_candidates(&context), vec![Candidate(2, 1)]);

    let mut table = create();
    table.import_statement(&context, proposal(1, Candidate(2, 1)));
    table.import_statement(&context, invalid(2, Candidate(2, 1)));
    table.import_statement(&context, valid(2, Candidate(2, 1)));
    assert!(table.proposed_candidates(&context).is_empty());
}

#[test]
fn votes_on_one_candidate_are_of_one_kind() {
    let context = Round::new((1, 0));
    let mut table = create();
    table.import_statement(&context, proposal(1, Candidate(2, 1)));
    for statement in [
        valid(2, Candidate(2, 1)),
        invalid(2, Candidate(2, 1)),
        valid(3, Candidate(2, 1)),
        invalid(4, Candidate(2, 1)),
        valid(4, Candidate(2, 1)),
        invalid(1, Candidate(2, 1)),
    ] {
        table.import_statement(&context, statement);
    }
    let records = table.candidates_in_group(2);
    let mut voters = records[0].voted_valid_by();
    voters.sort();
    // validator 4 voted against first, so is not among them; each of the
    // others is there once, whatever they said later
    assert_eq!(voters, vec![1, 2, 3]);
    assert!(records[0].indicated_bad());
    // four votes in all
    assert!(records[0].can_be_included(4, 0) == false);
    let mut accused: Vec<Validator> = table.detected_misbehavior().keys().cloned().collect();
    accused.sort();
    assert_eq!(accused, vec![1, 2, 4]);
}

#[test]
fn record_counts_votes_as_they_come() {
    let mut data = CandidateData::<Round>::new(2, Candidate(2, 1));
    assert!(data.can_be_included(0, 0));
    assert!(!data.can_be_included(1, 0));
    assert!(!data.can_be_included(0, 1));
    assert!(!data.indicated_bad());
    assert!(data.voted_valid_by().is_empty());

    assert_eq!(data.validity_vote(1, 77, ValidityVote::Issued((1, 0))), None);
    assert_eq!(data.validity_vote(2, 77, ValidityVote::Valid((2, 0))), None);
    assert_eq!(data.validity_vote(2, 77, ValidityVote::Valid((2, 1))), None);
    assert_eq!(data.validity_vote(1, 77, ValidityVote::Issued((1, 1))), None);
    assert!(data.can_be_included(2, 0));
    assert!(!data.can_be_included(3, 0));

    assert_eq!(
        data.validity_vote(1, 77, ValidityVote::Valid((1, 5))),
        Some(ValidityDoubleVote::IssuedAndValidity((Candidate(2, 1), (1, 0)), (77, (1, 5))))
    );
    assert_eq!(
        data.validity_vote(2, 77, ValidityVote::Issued((2, 5))),
        Some(ValidityDoubleVote::IssuedAndValidity((Candidate(2, 1), (2, 5)), (77, (2, 0))))
    );
    assert_eq!(
        data.validity_vote(2, 77, ValidityVote::Invalid((2, 6))),
        Some(ValidityDoubleVote::ValidityAndInvalidity(77, (2, 0), (2, 6)))
    );
    assert!(!data.indicated_bad());
    assert!(data.can_be_included(2, 0));

    data.availability_vote(11, (11, 0));
    data.availability_vote(11, (11, 1));
    assert!(data.can_be_included(2, 1));
    assert!(!data.can_be_included(2, 2));

    assert_eq!(data.validity_vote(3, 77, ValidityVote::Invalid((3, 0))), None);
    assert!(data.indicated_bad());
    assert!(!data.can_be_included(0, 0));
    assert_eq!(
        data.validity_vote(3, 77, ValidityVote::Issued((3, 1))),
        Some(ValidityDoubleVote::IssuedAndInvalidity((Candidate(2, 1), (3, 1)), (77, (3, 0))))
    );
    assert_eq!(*data.group(), 2);
    assert_eq!(*data.candidate(), Candidate(2, 1));
}
