//! The position: two occupancy masks, the column heights, the side to move
//! and the number of pieces placed.
use crate::error::{view_err, GameError, GameErrorView};
use crate::geometry::{
    bit_at, cell_index, lemma_bit_or, lemma_bit_single, lemma_bit_zero, occupied, on_board,
    within_board, COL_HEIGHT, HEIGHT, MAX_CELLS, WIDTH,
};
use crate::player::Player;
use crate::win::{four_connected, has_won};
use vstd::prelude::*;

verus! {

/// What one placement did.
#[derive(Clone, Copy, Debug, PartialEq, Eq, Structural)]
pub struct MoveOutcome {
    pub player: Player,
    pub column: usize,
    /// Whether the placement gave `player` four in a row.
    pub won: bool,
}

/// One move of a history: who played, and in which column.
#[derive(Clone, Copy, Debug, PartialEq, Eq, Structural)]
pub struct TypedMove {
    pub player: Player,
    pub column: usize,
}

/// The order in which columns are tried: the centre first, then outwards,
/// left before right.
pub const MOVE_ORDER: [usize; 7] = [3, 2, 4, 1, 5, 0, 6];

/// `MOVE_ORDER` as a sequence.
pub open spec fn move_order() -> Seq<usize> {
    seq![3usize, 2usize, 4usize, 1usize, 5usize, 0usize, 6usize]
}

/// The mathematical model of a position.
pub struct Board {
    /// Occupancy mask of Red.
    pub red: u64,
    /// Occupancy mask of Blue.
    pub blue: u64,
    /// Number of pieces in each of the seven columns.
    pub heights: Seq<int>,
    /// Whose turn is next.
    pub to_move: Player,
    /// Number of pieces placed.
    pub moves_played: int,
}

impl Board {
    /// The occupancy mask of `player`.
    pub open spec fn bits(self, player: Player) -> u64 {
        match player {
            Player::Red => self.red,
            Player::Blue => self.blue,
        }
    }

    /// Whether bit `i` is a playable cell below the height of its column.
    pub open spec fn filled(self, i: int) -> bool {
        0 <= i < 49 && i % 7 < self.heights[i / 7]
    }

    /// The invariant of a position: no column holds more than six pieces; the
    /// cells that hold a piece are exactly those below their column's height;
    /// no cell belongs to both players; the move count is the sum of the
    /// heights.
    #[verifier::opaque]
    pub open spec fn valid(self) -> bool {
        &&& self.heights.len() == 7
        &&& forall|c: int| 0 <= c < 7 ==> 0 <= #[trigger] self.heights[c] <= 6
        &&& forall|i: int|
            #![trigger bit_at(self.red, i)]
            #![trigger bit_at(self.blue, i)]
            (bit_at(self.red, i) || bit_at(self.blue, i)) <==> self.filled(i)
        &&& forall|i: int| !(#[trigger] bit_at(self.red, i) && #[trigger] bit_at(self.blue, i))
        &&& self.moves_played == self.heights[0] + self.heights[1] + self.heights[2]
            + self.heights[3] + self.heights[4] + self.heights[5] + self.heights[6]
    }

    /// The empty position with `to_move` to play.
    pub open spec fn empty(to_move: Player) -> Board {
        Board { red: 0, blue: 0, heights: Seq::new(7, |c: int| 0int), to_move, moves_played: 0 }
    }

    /// Whether every cell holds a piece.
    pub open spec fn is_full(self) -> bool {
        self.moves_played >= 42
    }

    /// Whether a piece can be dropped into `column`.
    pub open spec fn is_legal(self, column: int) -> bool {
        0 <= column < 7 && self.heights[column] < 6
    }

    /// The position after `player` drops a piece into `column`: the piece
    /// lands on the column's height, the height and the move count grow by
    /// one, and the turn passes to the opponent of `player`.
    pub open spec fn placed(self, player: Player, column: int) -> Board {
        let bit = 1u64 << ((column * 7 + self.heights[column]) as u64);
        Board {
            red: if player == Player::Red {
                self.red | bit
            } else {
                self.red
            },
            blue: if player == Player::Blue {
                self.blue | bit
            } else {
                self.blue
            },
            heights: self.heights.update(column, self.heights[column] + 1),
            to_move: player.other(),
            moves_played: self.moves_played + 1,
        }
    }

    /// A placement with its checks: out of bounds first, then a full column.
    pub open spec fn try_place(self, player: Player, column: int) -> Result<Board, GameErrorView> {
        if column >= 7 {
            Err(GameErrorView::ColumnOutOfBounds { column })
        } else if self.heights[column] >= 6 {
            Err(GameErrorView::ColumnFull { column })
        } else {
            Ok(self.placed(player, column))
        }
    }

    /// The columns that take another piece, in the order of `move_order`.
    pub open spec fn legal_moves(self) -> Seq<usize> {
        move_order().filter(|c: usize| self.is_legal(c as int))
    }

    /// The empty position is valid.
    pub proof fn lemma_empty_valid(to_move: Player)
        ensures
            Board::empty(to_move).valid(),
    {
        reveal(Board::valid);
        lemma_bit_zero();
    }

    /// A legal placement keeps the position valid, sets the bit of the cell
    /// on top of the column in the mover's mask and changes no other bit.
    pub proof fn lemma_placed(self, player: Player, column: int)
        requires
            self.valid(),
            self.is_legal(column),
        ensures
            self.placed(player, column).valid(),
            forall|i: int|
                #[trigger] bit_at(self.placed(player, column).bits(player), i) <==> (bit_at(
                    self.bits(player),
                    i,
                ) || i == cell_index(column, self.heights[column])),
            self.placed(player, column).bits(player.other()) == self.bits(player.other()),
            !self.filled(cell_index(column, self.heights[column])),
    {
        reveal(Board::valid);
        let k = column * 7 + self.heights[column];
        let bit = 1u64 << (k as u64);
        let next = self.placed(player, column);
        lemma_bit_single(k as u64);
        lemma_bit_or(self.red, bit);
        lemma_bit_or(self.blue, bit);
        assert(!self.filled(k));
        assert(!bit_at(self.red, k) && !bit_at(self.blue, k));
        assert forall|i: int|
            (bit_at(next.red, i) || bit_at(next.blue, i)) <==> next.filled(i) by {
            assert((bit_at(next.red, i) || bit_at(next.blue, i)) <==> (bit_at(self.red, i)
                || bit_at(self.blue, i) || i == k));
            if 0 <= i < 49 {
                if i / 7 == column {
                    assert(next.heights[i / 7] == self.heights[column] + 1);
                    assert(next.filled(i) <==> (self.filled(i) || i == k));
                } else {
                    assert(next.heights[i / 7] == self.heights[i / 7]);
                    assert(i != k);
                }
            } else {
                assert(i != k);
            }
        }
        assert forall|i: int| !(#[trigger] bit_at(next.red, i) && #[trigger] bit_at(next.blue, i)) by {
            assert(!(bit_at(self.red, i) && bit_at(self.blue, i)));
        }
    }

    /// The legal moves are columns that take another piece, and in a valid
    /// position that is not full there is one.
    pub proof fn lemma_legal_moves(self)
        requires
            self.valid(),
        ensures
            forall|j: int|
                0 <= j < self.legal_moves().len() ==> self.is_legal(
                    #[trigger] self.legal_moves()[j] as int,
                ),
            self.legal_moves().len() == 0 <==> self.is_full(),
    {
        let legal = |c: usize| self.is_legal(c as int);
        #[allow(deprecated)]
        move_order().filter_lemma(legal);
        self.lemma_valid_facts();
        if !self.is_full() {
            let c = choose|c: int| 0 <= c < 7 && self.is_legal(c);
            let k = choose|k: int| 0 <= k < 7 && move_order()[k] == c;
            assert(legal(move_order()[k]));
            assert(self.legal_moves().contains(move_order()[k]));
        } else {
            if self.legal_moves().len() > 0 {
                assert(legal(self.legal_moves()[0]));
            }
        }
    }

    /// In a valid position both masks stay within the playable cells, the
    /// move count is at most 42, and the board is full exactly when no column
    /// takes another piece.
    pub proof fn lemma_valid_facts(self)
        requires
            self.valid(),
        ensures
            within_board(self.red),
            within_board(self.blue),
            self.heights.len() == 7,
            forall|c: int| 0 <= c < 7 ==> 0 <= #[trigger] self.heights[c] <= 6,
            0 <= self.moves_played <= 42,
            self.is_full() <==> forall|c: int| 0 <= c < 7 ==> !self.is_legal(c),
            forall|col: int, row: int|
                #![trigger occupied(self.red, col, row)]
                #![trigger occupied(self.blue, col, row)]
                on_board(col, row) ==> ((occupied(self.red, col, row) || occupied(
                    self.blue,
                    col,
                    row,
                )) <==> row < self.heights[col]),
    {
        reveal(Board::valid);
        assert forall|i: int| #[trigger] bit_at(self.red, i) implies i < 49 && i % 7 != 6 by {
            assert(self.filled(i));
        }
        assert forall|i: int| #[trigger] bit_at(self.blue, i) implies i < 49 && i % 7 != 6 by {
            assert(self.filled(i));
        }
        assert(self.heights[0] <= 6 && self.heights[1] <= 6 && self.heights[2] <= 6
            && self.heights[3] <= 6 && self.heights[4] <= 6 && self.heights[5] <= 6
            && self.heights[6] <= 6);
        if forall|c: int| 0 <= c < 7 ==> !self.is_legal(c) {
            assert(!self.is_legal(0) && !self.is_legal(1) && !self.is_legal(2) && !self.is_legal(3)
                && !self.is_legal(4) && !self.is_legal(5) && !self.is_legal(6));
        }
        assert forall|col: int, row: int|
            #![trigger occupied(self.red, col, row)]
            #![trigger occupied(self.blue, col, row)]
            on_board(col, row) implies ((occupied(self.red, col, row) || occupied(
            self.blue,
            col,
            row,
        )) <==> row < self.heights[col]) by {
            let i = cell_index(col, row);
            assert(i / 7 == col && i % 7 == row);
            assert((bit_at(self.red, i) || bit_at(self.blue, i)) <==> self.filled(i));
        }
    }
}

/// The position that a sequence of moves leads to from the empty board, or
/// the error of the first placement that fails. Each piece is placed for the
/// player that the move names, whoever's turn it would be.
pub open spec fn replay(moves: Seq<TypedMove>) -> Result<Board, GameErrorView>
    decreases moves.len(),
{
    if moves.len() == 0 {
        Ok(Board::empty(Player::Red))
    } else {
        match replay(moves.drop_last()) {
            Err(e) => Err(e),
            Ok(board) => board.try_place(moves.last().player, moves.last().column as int),
        }
    }
}

/// The side to move after `moves`: the opponent of the player of the last
/// move, and Red after no move.
pub open spec fn side_after(moves: Seq<TypedMove>) -> Player {
    if moves.len() == 0 {
        Player::Red
    } else {
        moves.last().player.other()
    }
}

/// A replay that succeeds gives a valid position that holds as many pieces
/// as there were moves, with the opponent of the last mover to play.
pub proof fn replay_counts_moves(moves: Seq<TypedMove>)
    requires
        replay(moves) is Ok,
    ensures
        replay(moves)->Ok_0.valid(),
        replay(moves)->Ok_0.moves_played == moves.len(),
        replay(moves)->Ok_0.to_move == side_after(moves),
    decreases moves.len(),
{
    if moves.len() == 0 {
        Board::lemma_empty_valid(Player::Red);
    } else {
        replay_counts_moves(moves.drop_last());
        let board = replay(moves.drop_last())->Ok_0;
        board.lemma_valid_facts();
        board.lemma_placed(moves.last().player, moves.last().column as int);
    }
}

/// Once a prefix of the moves fails, the whole sequence fails with the same
/// error, whatever follows.
pub proof fn replay_error_is_final(moves: Seq<TypedMove>, k: int)
    requires
        0 <= k <= moves.len(),
        replay(moves.take(k)) is Err,
    ensures
        replay(moves) == replay(moves.take(k)),
    decreases moves.len(),
{
    if k == moves.len() {
        assert(moves.take(k) =~= moves);
    } else {
        assert(moves.drop_last().take(k) =~= moves.take(k));
        replay_error_is_final(moves.drop_last(), k);
    }
}

/// A move into a column that the moves before it have filled makes the
/// replay fail with the column-full error for that column, whatever follows.
pub proof fn replay_full_column_fails(moves: Seq<TypedMove>, k: int)
    requires
        0 <= k < moves.len(),
        replay(moves.take(k)) is Ok,
        moves[k].column < 7,
        replay(moves.take(k))->Ok_0.heights[moves[k].column as int] >= 6,
    ensures
        replay(moves) == Err::<Board, GameErrorView>(
            GameErrorView::ColumnFull { column: moves[k].column as int },
        ),
{
    assert(moves.take(k + 1).drop_last() =~= moves.take(k));
    assert(moves.take(k + 1).last() == moves[k]);
    replay_error_is_final(moves, k + 1);
}

/// The win verdict depends on the mask alone: two replays that leave a
/// player with the same mask agree on whether that player has won, in
/// whatever order the pieces came.
pub proof fn win_ignores_move_order(first: Seq<TypedMove>, second: Seq<TypedMove>, player: Player)
    requires
        replay(first) is Ok,
        replay(second) is Ok,
        replay(first)->Ok_0.bits(player) == replay(second)->Ok_0.bits(player),
    ensures
        four_connected(replay(first)->Ok_0.bits(player)) == four_connected(
            replay(second)->Ok_0.bits(player),
        ),
{
}

/// A position of the game. Copies are independent: a search branch works on
/// its own copy.
#[derive(Clone, Copy, Debug, PartialEq, Eq)]
pub struct GameState {
    players: [u64; 2],
    heights: [u8; 7],
    to_move: Player,
    moves_played: u8,
}

impl View for GameState {
    type V = Board;

    closed spec fn view(&self) -> Board {
        Board {
            red: self.players[0],
            blue: self.players[1],
            heights: Seq::new(7, |c: int| self.heights[c] as int),
            to_move: self.to_move,
            moves_played: self.moves_played as int,
        }
    }
}

impl GameState {
    /// Every position that executable code holds is valid.
    #[verifier::type_invariant]
    pub open spec fn inv(self) -> bool {
        self@.valid()
    }

    /// The empty board with `to_move` to play.
    pub fn empty(to_move: Player) -> (state: GameState)
        ensures
            state@ == Board::empty(to_move),
    {
        let players: [u64; 2] = [0, 0];
        let heights: [u8; 7] = [0;7];
        proof {
            Board::lemma_empty_valid(to_move);
            let ghost made = (GameState { players, heights, to_move, moves_played: 0 })@;
            assert(made.heights =~= Board::empty(to_move).heights);
            assert(made == Board::empty(to_move));
        }
        GameState { players, heights, to_move, moves_played: 0 }
    }

    /// Replays `moves` from the empty board.
    pub fn from_history(moves: &[TypedMove]) -> (r: Result<GameState, GameError>)
        ensures
            match replay(moves@) {
                Ok(board) => r is Ok && r->Ok_0@ == board,
                Err(e) => r is Err && r->Err_0@ == e,
            },
            r is Ok ==> r->Ok_0@.moves_played == moves@.len() && r->Ok_0@.to_move == side_after(
                moves@,
            ),
    {
        let mut state = Self::empty(Player::Red);
        let mut i: usize = 0;
        while i < moves.len()
            invariant
                i <= moves@.len(),
                replay(moves@.take(i as int)) == Ok::<Board, GameErrorView>(state@),
            decreases moves@.len() - i,
        {
            proof {
                assert(moves@.take(i + 1).drop_last() =~= moves@.take(i as int));
                assert(moves@.take(i + 1).last() == moves@[i as int]);
            }
            match state.force_play(moves[i].player, moves[i].column) {
                Err(e) => {
                    proof {
                        replay_error_is_final(moves@, i + 1);
                    }
                    return Err(e);
                },
                Ok(_) => {},
            }
            i += 1;
        }
        proof {
            assert(moves@.take(i as int) =~= moves@);
            replay_counts_moves(moves@);
        }
        Ok(state)
    }

    /// The columns that take another piece, centre first.
    pub fn legal_moves(&self) -> (columns: Vec<usize>)
        ensures
            columns@ == self@.legal_moves(),
    {
        proof {
            use_type_invariant(self);
            self@.lemma_valid_facts();
        }
        let ghost legal = |c: usize| self@.is_legal(c as int);
        let mut columns: Vec<usize> = Vec::new();
        let mut i: usize = 0;
        assert(MOVE_ORDER@ =~= move_order());
        while i < 7
            invariant
                i <= 7,
                MOVE_ORDER@ == move_order(),
                self@.heights.len() == 7,
                legal == (|c: usize| self@.is_legal(c as int)),
                columns@ == move_order().take(i as int).filter(legal),
            decreases 7 - i,
        {
            let col = MOVE_ORDER[i];
            proof {
                reveal(Seq::filter);
                assert(move_order().take(i + 1).drop_last() =~= move_order().take(i as int));
                assert(move_order().take(i + 1).last() == col);
            }
            if (self.heights[col] as usize) < HEIGHT {
                columns.push(col);
            }
            i += 1;
        }
        proof {
            reveal(Seq::filter);
            assert(move_order().take(7) =~= move_order());
        }
        columns
    }

    /// The occupancy mask of `player`.
    pub fn bits(&self, player: Player) -> (b: u64)
        ensures
            b == self@.bits(player),
    {
        self.players[player.idx()]
    }

    /// Whose turn is next.
    pub fn to_move(&self) -> (p: Player)
        ensures
            p == self@.to_move,
    {
        self.to_move
    }

    /// Number of pieces placed.
    pub fn moves_played(&self) -> (n: u8)
        ensures
            n == self@.moves_played,
    {
        self.moves_played
    }

    /// Number of pieces in `column`.
    pub fn height(&self, column: usize) -> (h: u8)
        requires
            column < 7,
        ensures
            h == self@.heights[column as int],
            h <= 6,
    {
        proof {
            use_type_invariant(self);
            self@.lemma_valid_facts();
        }
        self.heights[column]
    }

    /// Whether every cell holds a piece.
    pub fn is_full(&self) -> (full: bool)
        ensures
            full == self@.is_full(),
    {
        self.moves_played as usize >= MAX_CELLS
    }

    /// Drops a piece of `player` into `column`, whoever's turn it is.
    pub fn force_play(&mut self, player: Player, column: usize) -> (r: Result<
        MoveOutcome,
        GameError,
    >)
        ensures
            match old(self)@.try_place(player, column as int) {
                Ok(next) => final(self)@ == next && r == Ok::<MoveOutcome, GameError>(
                    (MoveOutcome { player, column, won: four_connected(next.bits(player)) }),
                ),
                Err(e) => *final(self) == *old(self) && view_err(r) == Err::<
                    MoveOutcome,
                    GameErrorView,
                >(e),
            },
    {
        proof {
            use_type_invariant(&*self);
        }
        if column >= WIDTH {
            return Err(GameError::ColumnOutOfBounds { column });
        }
        let height = self.heights[column] as usize;
        if height >= HEIGHT {
            return Err(GameError::ColumnFull { column });
        }
        let ghost before = self@;
        let ghost target = before.placed(player, column as int);
        proof {
            before.lemma_placed(player, column as int);
            before.lemma_valid_facts();
        }
        let bit = 1u64 << (column * COL_HEIGHT + height);
        let mut players = self.players;
        let mine = players[player.idx()] | bit;
        players[player.idx()] = mine;
        let mut heights = self.heights;
        heights[column] = (height + 1) as u8;
        let won = has_won(mine);
        let to_move = player.opponent();
        let moves_played = self.moves_played + 1;
        proof {
            let ghost made = (GameState { players, heights, to_move, moves_played })@;
            assert(made.heights =~= target.heights);
            assert(made == target);
        }
        *self = GameState { players, heights, to_move, moves_played };
        Ok(MoveOutcome { player, column, won })
    }

    /// Drops a piece of the side to move into `column`.
    pub fn play(&mut self, column: usize) -> (r: Result<MoveOutcome, GameError>)
        ensures
            match old(self)@.try_place(old(self)@.to_move, column as int) {
                Ok(next) => final(self)@ == next && r == Ok::<MoveOutcome, GameError>(
                    (MoveOutcome {
                        player: old(self)@.to_move,
                        column,
                        won: four_connected(next.bits(old(self)@.to_move)),
                    }),
                ),
                Err(e) => *final(self) == *old(self) && view_err(r) == Err::<
                    MoveOutcome,
                    GameErrorView,
                >(e),
            },
    {
        let player = self.to_move;
        self.force_play(player, column)
    }
}

} // verus!
